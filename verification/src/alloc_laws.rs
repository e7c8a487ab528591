//! What the allocator's steps keep of the blocks it owns: the blocks in use,
//! the blocks on the free lists and the bump region never overlap.
use vstd::prelude::*;
use crate::allocator::{
    AllocModel, AllocStep, DeallocStep, alloc_spec, dealloc_spec, carve_spec, bucket_spec, class_of, is_small,
    lemma_bucket_min, lemma_carved_blocks_disjoint,
};

verus! {

/// Two blocks, each an address and a length, share no byte.
pub open spec fn apart(x: (int, int), y: (int, int)) -> bool {
    x.0 + x.1 <= y.0 || y.0 + y.1 <= x.0
}

/// Whether free list `b` has an entry at `j`.
pub open spec fn listed(m: AllocModel, b: int, j: int) -> bool {
    0 <= b < m.free.len() && 0 <= j < m.free[b].len()
}

/// The block at entry `j` of free list `b`.
pub open spec fn free_block(m: AllocModel, b: int, j: int) -> (int, int) {
    (m.free[b][j] as int, bucket_spec(b))
}

/// The bump region, as a block.
pub open spec fn bump(m: AllocModel) -> (int, int) {
    (m.cur as int, m.end - m.cur)
}

/// The blocks in use (`live`), the free blocks and the bump region (when
/// there is one) are pairwise apart, and every block in use has bytes.
pub open spec fn heap_ok(m: AllocModel, live: Set<(int, int)>) -> bool {
    &&& forall|x: (int, int), y: (int, int)| #[trigger] live.contains(x) && #[trigger] live.contains(y) && x != y
        ==> apart(x, y)
    &&& forall|x: (int, int), b: int, j: int| #[trigger] live.contains(x) && listed(m, b, j)
        ==> apart(x, #[trigger] free_block(m, b, j))
    &&& forall|b: int, j: int, c: int, k: int| listed(m, b, j) && listed(m, c, k) && (b != c || j != k)
        ==> apart(#[trigger] free_block(m, b, j), #[trigger] free_block(m, c, k))
    &&& forall|x: (int, int)| #[trigger] live.contains(x) ==> x.1 > 0 && (m.cur != 0 ==> apart(x, bump(m)))
    &&& forall|b: int, j: int| listed(m, b, j) && m.cur != 0 ==> apart(#[trigger] free_block(m, b, j), bump(m))
}

/// A block handed out by an allocation overlaps no block in use, and the
/// blocks in use, now with it, still overlap neither each other nor the
/// free blocks nor the bump region.
pub proof fn lemma_alloc_keeps_blocks_apart(m: AllocModel, live: Set<(int, int)>, size: int, align: int,
    r: AllocStep, m2: AllocModel)
    requires
        heap_ok(m, live),
        m.free.len() == 13,
        m.cur <= m.end,
        size > 0,
        is_small(size, align),
        0 <= class_of(size, align) < 13,
        alloc_spec(m, size, align, r, m2),
        r is Ready,
    ensures
        ({
            let x = (r->Ready_0 as int, bucket_spec(class_of(size, align)));
            &&& forall|y: (int, int)| #[trigger] live.contains(y) ==> apart(x, y)
            &&& heap_ok(m2, live.insert(x))
        }),
{
    let b = class_of(size, align);
    let bs = bucket_spec(b);
    lemma_bucket_min(b);
    let p = r->Ready_0;
    let x = (p as int, bs);
    let live2 = live.insert(x);
    assert forall|c: int| 0 <= c < 13 implies #[trigger] bucket_spec(c) > 0 by {
        lemma_bucket_min(c);
    }
    if m.free[b].len() > 0 {
        let last = m.free[b].len() - 1;
        assert(free_block(m, b, last) == x);
        assert forall|c: int, k: int| #[trigger] listed(m2, c, k) implies listed(m, c, k) && free_block(m2, c, k)
            == free_block(m, c, k) && (c != b || k != last) by {
        }
        assert forall|y: (int, int)| #[trigger] live.contains(y) implies apart(x, y) by {
            assert(apart(y, free_block(m, b, last)));
        }
        assert forall|y: (int, int), z: (int, int)| #[trigger] live2.contains(y) && #[trigger] live2.contains(z)
            && y != z implies apart(y, z) by {
            if y == x {
                assert(apart(z, free_block(m, b, last)));
            } else if z == x {
                assert(apart(y, free_block(m, b, last)));
            }
        }
        assert forall|y: (int, int), c: int, k: int| #[trigger] live2.contains(y) && listed(m2, c, k)
            implies apart(y, #[trigger] free_block(m2, c, k)) by {
            assert(listed(m2, c, k));
            if y == x {
                assert(apart(free_block(m, b, last), free_block(m, c, k)));
            } else {
                assert(apart(y, free_block(m, c, k)));
            }
        }
        assert forall|c: int, k: int, d: int, l: int| listed(m2, c, k) && listed(m2, d, l) && (c != d || k != l)
            implies apart(#[trigger] free_block(m2, c, k), #[trigger] free_block(m2, d, l)) by {
            assert(listed(m2, c, k) && listed(m2, d, l));
            assert(apart(free_block(m, c, k), free_block(m, d, l)));
        }
        assert forall|y: (int, int)| #[trigger] live2.contains(y) implies y.1 > 0 && (m2.cur != 0 ==> apart(y, bump(m2))) by {
            if y == x {
                assert(apart(free_block(m, b, last), bump(m)) || m.cur == 0);
            }
        }
        assert forall|c: int, k: int| listed(m2, c, k) && m2.cur != 0 implies apart(#[trigger] free_block(m2, c, k), bump(m2)) by {
            assert(listed(m2, c, k));
            assert(apart(free_block(m, c, k), bump(m)));
        }
    } else {
        lemma_carved_blocks_disjoint(m, size, align, r, m2);
        assert(m.cur != 0);
        assert(m2.free == m.free);
        assert(m2.cur == p + bs);
        assert forall|c: int, k: int| #[trigger] listed(m2, c, k) implies listed(m, c, k) && free_block(m2, c, k)
            == free_block(m, c, k) by {
        }
        assert forall|y: (int, int)| #[trigger] live.contains(y) implies apart(x, y) by {
            assert(apart(y, bump(m)));
        }
        assert forall|y: (int, int), z: (int, int)| #[trigger] live2.contains(y) && #[trigger] live2.contains(z)
            && y != z implies apart(y, z) by {
            if y == x {
                assert(apart(z, bump(m)));
            } else if z == x {
                assert(apart(y, bump(m)));
            }
        }
        assert forall|y: (int, int), c: int, k: int| #[trigger] live2.contains(y) && listed(m2, c, k)
            implies apart(y, #[trigger] free_block(m2, c, k)) by {
            assert(listed(m, c, k));
            assert(free_block(m2, c, k) == free_block(m, c, k));
            if y == x {
                assert(apart(free_block(m, c, k), bump(m)));
            } else {
                assert(apart(y, free_block(m, c, k)));
            }
        }
        assert forall|c: int, k: int, d: int, l: int| listed(m2, c, k) && listed(m2, d, l) && (c != d || k != l)
            implies apart(#[trigger] free_block(m2, c, k), #[trigger] free_block(m2, d, l)) by {
            assert(listed(m, c, k) && listed(m, d, l));
            assert(apart(free_block(m, c, k), free_block(m, d, l)));
        }
        assert forall|y: (int, int)| #[trigger] live2.contains(y) implies y.1 > 0 && (m2.cur != 0 ==> apart(y, bump(m2))) by {
            if y != x {
                assert(apart(y, bump(m)));
            }
        }
        assert forall|c: int, k: int| listed(m2, c, k) && m2.cur != 0 implies apart(#[trigger] free_block(m2, c, k), bump(m2)) by {
            assert(listed(m, c, k));
            assert(free_block(m2, c, k) == free_block(m, c, k));
            assert(apart(free_block(m, c, k), bump(m)));
        }
    }
}

/// Giving back a block in use puts it on its free list; the blocks still
/// in use, the free blocks and the bump region stay pairwise apart.
pub proof fn lemma_dealloc_keeps_blocks_apart(m: AllocModel, live: Set<(int, int)>, p: usize, size: int,
    align: int, r: DeallocStep, m2: AllocModel)
    requires
        heap_ok(m, live),
        m.free.len() == 13,
        size > 0,
        is_small(size, align),
        0 <= class_of(size, align) < 13,
        live.contains((p as int, bucket_spec(class_of(size, align)))),
        dealloc_spec(m, p, size, align, r, m2),
    ensures
        heap_ok(m2, live.remove((p as int, bucket_spec(class_of(size, align))))),
{
    let b = class_of(size, align);
    let x = (p as int, bucket_spec(b));
    let live2 = live.remove(x);
    let n = m.free[b].len() as int;
    assert(m2.free[b] == m.free[b].push(p));
    assert(free_block(m2, b, n) == x);
    assert forall|c: int, k: int| #[trigger] listed(m2, c, k) && (c != b || k != n) implies listed(m, c, k)
        && free_block(m2, c, k) == free_block(m, c, k) by {
        if c == b {
            assert(m2.free[b][k] == m.free[b][k]);
        }
    }
    assert forall|y: (int, int), c: int, k: int| #[trigger] live2.contains(y) && listed(m2, c, k)
        implies apart(y, #[trigger] free_block(m2, c, k)) by {
        assert(listed(m2, c, k));
        if c == b && k == n {
            assert(live.contains(y) && y != x);
        } else {
            assert(apart(y, free_block(m, c, k)));
        }
    }
    assert forall|c: int, k: int, d: int, l: int| listed(m2, c, k) && listed(m2, d, l) && (c != d || k != l)
        implies apart(#[trigger] free_block(m2, c, k), #[trigger] free_block(m2, d, l)) by {
        assert(listed(m2, c, k) && listed(m2, d, l));
        if c == b && k == n {
            assert(apart(x, free_block(m, d, l)));
        } else if d == b && l == n {
            assert(apart(x, free_block(m, c, k)));
        } else {
            assert(apart(free_block(m, c, k), free_block(m, d, l)));
        }
    }
    assert forall|c: int, k: int| listed(m2, c, k) && m2.cur != 0 implies apart(#[trigger] free_block(m2, c, k), bump(m2)) by {
        assert(listed(m2, c, k));
        if c == b && k == n {
            assert(live.contains(x));
        } else {
            assert(apart(free_block(m, c, k), bump(m)));
        }
    }
}

/// A block carved from the bump region (after a fresh arena was installed)
/// overlaps no block in use, and everything stays pairwise apart.
pub proof fn lemma_carve_keeps_blocks_apart(m: AllocModel, live: Set<(int, int)>, b: int, p: usize, m2: AllocModel)
    requires
        heap_ok(m, live),
        0 <= b < 13,
        carve_spec(m, b, p, m2),
        p != 0,
    ensures
        forall|y: (int, int)| #[trigger] live.contains(y) ==> apart((p as int, bucket_spec(b)), y),
        heap_ok(m2, live.insert((p as int, bucket_spec(b)))),
{
    let bs = bucket_spec(b);
    lemma_bucket_min(b);
    let x = (p as int, bs);
    let live2 = live.insert(x);
    assert(m.cur != 0 && m.cur <= p && p + bs <= m.end && m2.cur == p + bs);
    assert(m2.free == m.free);
    assert forall|c: int, k: int| #[trigger] listed(m2, c, k) implies listed(m, c, k) && free_block(m2, c, k)
        == free_block(m, c, k) by {
    }
    assert forall|y: (int, int)| #[trigger] live.contains(y) implies apart(x, y) by {
        assert(apart(y, bump(m)));
    }
    assert forall|y: (int, int), z: (int, int)| #[trigger] live2.contains(y) && #[trigger] live2.contains(z)
        && y != z implies apart(y, z) by {
        if y == x {
            assert(apart(z, bump(m)));
        } else if z == x {
            assert(apart(y, bump(m)));
        }
    }
    assert forall|y: (int, int), c: int, k: int| #[trigger] live2.contains(y) && listed(m2, c, k)
        implies apart(y, #[trigger] free_block(m2, c, k)) by {
        assert(listed(m, c, k));
        if y == x {
            assert(apart(free_block(m, c, k), bump(m)));
        } else {
            assert(apart(y, free_block(m, c, k)));
        }
    }
    assert forall|c: int, k: int, d: int, l: int| listed(m2, c, k) && listed(m2, d, l) && (c != d || k != l)
        implies apart(#[trigger] free_block(m2, c, k), #[trigger] free_block(m2, d, l)) by {
        assert(listed(m, c, k) && listed(m, d, l));
        assert(apart(free_block(m, c, k), free_block(m, d, l)));
    }
    assert forall|y: (int, int)| #[trigger] live2.contains(y) implies y.1 > 0 && (m2.cur != 0 ==> apart(y, bump(m2))) by {
        if y != x {
            assert(apart(y, bump(m)));
        }
    }
    assert forall|c: int, k: int| listed(m2, c, k) && m2.cur != 0 implies apart(#[trigger] free_block(m2, c, k), bump(m2)) by {
        assert(listed(m, c, k));
        assert(apart(free_block(m, c, k), bump(m)));
    }
}

/// Installing a fresh arena that overlaps no block in use and no free
/// block keeps everything pairwise apart (the rest of the old bump region
/// is left unused).
pub proof fn lemma_install_keeps_blocks_apart(m: AllocModel, live: Set<(int, int)>, base: usize, len: usize,
    m2: AllocModel)
    requires
        heap_ok(m, live),
        base > 0,
        m2 == (AllocModel { cur: base, end: (base + len) as usize, ..m }),
        base + len <= usize::MAX,
        forall|y: (int, int)| #[trigger] live.contains(y) ==> apart(y, (base as int, len as int)),
        forall|b: int, j: int| listed(m, b, j) ==> apart(#[trigger] free_block(m, b, j), (base as int, len as int)),
    ensures
        heap_ok(m2, live),
{
    assert(bump(m2) == (base as int, len as int));
    assert forall|c: int, k: int| #[trigger] listed(m2, c, k) implies listed(m, c, k) && free_block(m2, c, k)
        == free_block(m, c, k) by {
    }
    assert forall|y: (int, int), c: int, k: int| #[trigger] live.contains(y) && listed(m2, c, k)
        implies apart(y, #[trigger] free_block(m2, c, k)) by {
        assert(listed(m, c, k));
        assert(apart(y, free_block(m, c, k)));
    }
    assert forall|c: int, k: int, d: int, l: int| listed(m2, c, k) && listed(m2, d, l) && (c != d || k != l)
        implies apart(#[trigger] free_block(m2, c, k), #[trigger] free_block(m2, d, l)) by {
        assert(listed(m, c, k) && listed(m, d, l));
        assert(apart(free_block(m, c, k), free_block(m, d, l)));
    }
    assert forall|c: int, k: int| listed(m2, c, k) && m2.cur != 0 implies apart(#[trigger] free_block(m2, c, k), bump(m2)) by {
        assert(listed(m, c, k));
    }
}

} // verus!
