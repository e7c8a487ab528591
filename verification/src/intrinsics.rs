//! The byte-level memory routines (`memcpy`, `memmove`, `memset`, `memcmp`,
//! `bcmp`, `strlen`), over slices: a region is a slice and an offset.
use vstd::prelude::*;

verus! {

/// Copy `n` bytes from `src` to the start of `dest`.
pub fn memcpy(dest: &mut [u8], src: &[u8], n: usize)
    requires
        n <= old(dest)@.len(),
        n <= src@.len(),
    ensures
        final(dest)@ == src@.take(n as int) + old(dest)@.skip(n as int),
{
    let mut i: usize = 0;
    while i < n
        invariant
            i <= n,
            n <= dest@.len(),
            n <= src@.len(),
            dest@.len() == old(dest)@.len(),
            dest@ == src@.take(i as int) + old(dest)@.skip(i as int),
        decreases n - i,
    {
        dest[i] = src[i];
        i += 1;
        assert(dest@ =~= src@.take(i as int) + old(dest)@.skip(i as int));
    }
}

/// What moving `n` bytes from offset `src` to offset `dest` of `buf` leaves:
/// the destination range holds the old source range, all else is unchanged.
pub open spec fn moved(buf: Seq<u8>, dest: int, src: int, n: int) -> Seq<u8> {
    Seq::new(buf.len(), |i: int| if dest <= i < dest + n { buf[src + (i - dest)] } else { buf[i] })
}

/// Copy `n` bytes within `buf` from offset `src` to offset `dest`; the
/// ranges may overlap (the copy runs forwards when the destination is below
/// the source, backwards otherwise).
pub fn memmove(buf: &mut [u8], dest: usize, src: usize, n: usize)
    requires
        dest + n <= old(buf)@.len(),
        src + n <= old(buf)@.len(),
    ensures
        final(buf)@ == moved(old(buf)@, dest as int, src as int, n as int),
{
    let ghost orig = buf@;
    assert(orig.len() == buf.len());
    if dest < src {
        let mut i: usize = 0;
        while i < n
            invariant
                dest < src,
                i <= n,
                dest + n <= orig.len(),
                src + n <= orig.len(),
                orig.len() <= usize::MAX,
                buf@.len() == orig.len(),
                forall|k: int| 0 <= k < buf@.len() ==> #[trigger] buf@[k] == if dest <= k < dest + i {
                    orig[src + (k - dest)]
                } else {
                    orig[k]
                },
            decreases n - i,
        {
            let b = buf[src + i];
            assert(b == orig[src + i]);
            buf[dest + i] = b;
            i += 1;
        }
    } else {
        let mut i: usize = n;
        while i > 0
            invariant
                dest >= src,
                i <= n,
                dest + n <= orig.len(),
                src + n <= orig.len(),
                orig.len() <= usize::MAX,
                buf@.len() == orig.len(),
                forall|k: int| 0 <= k < buf@.len() ==> #[trigger] buf@[k] == if dest + i <= k < dest + n {
                    orig[src + (k - dest)]
                } else {
                    orig[k]
                },
            decreases i,
        {
            i -= 1;
            let b = buf[src + i];
            assert(b == orig[src + i]);
            buf[dest + i] = b;
        }
    }
    assert(buf@ =~= moved(orig, dest as int, src as int, n as int));
}

/// Fill the first `n` bytes of `dest` with the low byte of `c`.
pub fn memset(dest: &mut [u8], c: i32, n: usize)
    requires
        n <= old(dest)@.len(),
    ensures
        final(dest)@.len() == old(dest)@.len(),
        forall|i: int| 0 <= i < n ==> #[trigger] final(dest)@[i] == c as u8,
        forall|i: int| n <= i < old(dest)@.len() ==> #[trigger] final(dest)@[i] == old(dest)@[i],
{
    let byte = c as u8;
    let mut i: usize = 0;
    while i < n
        invariant
            i <= n,
            n <= dest@.len(),
            dest@.len() == old(dest)@.len(),
            byte == c as u8,
            forall|k: int| 0 <= k < i ==> #[trigger] dest@[k] == byte,
            forall|k: int| i <= k < dest@.len() ==> #[trigger] dest@[k] == old(dest)@[k],
        decreases n - i,
    {
        dest[i] = byte;
        i += 1;
    }
}

/// The comparison result of the first `n` bytes: the difference of the
/// first differing bytes, or 0 when they agree.
pub open spec fn order_spec(a: Seq<u8>, b: Seq<u8>, n: int) -> int
    decreases n,
{
    if n <= 0 {
        0
    } else if order_spec(a, b, n - 1) != 0 {
        order_spec(a, b, n - 1)
    } else if a[n - 1] != b[n - 1] {
        a[n - 1] as int - b[n - 1] as int
    } else {
        0
    }
}

/// `order_spec` of the first `n` bytes.
pub open spec fn prefix_order(a: Seq<u8>, b: Seq<u8>, n: usize) -> int {
    order_spec(a, b, n as int)
}

/// Compare the first `n` bytes of `a` and `b`.
pub fn compare_prefix(a: &[u8], b: &[u8], n: usize) -> (r: i32)
    requires
        n <= a@.len(),
        n <= b@.len(),
    ensures
        r == prefix_order(a@, b@, n),
{
    let mut i: usize = 0;
    while i < n
        invariant
            i <= n,
            n <= a@.len(),
            n <= b@.len(),
            order_spec(a@, b@, i as int) == 0,
        decreases n - i,
    {
        let x = a[i];
        let y = b[i];
        if x != y {
            proof { lemma_order_stays(a@, b@, i as int + 1, n as int); }
            return x as i32 - y as i32;
        }
        i += 1;
    }
    0
}

/// Once a difference is found, later bytes do not change the result.
proof fn lemma_order_stays(a: Seq<u8>, b: Seq<u8>, k: int, n: int)
    requires
        0 <= k <= n,
        order_spec(a, b, k) != 0,
    ensures
        order_spec(a, b, n) == order_spec(a, b, k),
    decreases n - k,
{
    if n > k {
        lemma_order_stays(a, b, k, n - 1);
    }
}

/// Compare the first `n` bytes of `a` and `b`: the difference of the first
/// differing bytes, or 0.
pub fn memcmp(a: &[u8], b: &[u8], n: usize) -> (r: i32)
    requires
        n <= a@.len(),
        n <= b@.len(),
    ensures
        r == prefix_order(a@, b@, n),
{
    compare_prefix(a, b, n)
}

/// Compare the first `n` bytes of `a` and `b` (same result as `memcmp`).
pub fn bcmp(a: &[u8], b: &[u8], n: usize) -> (r: i32)
    requires
        n <= a@.len(),
        n <= b@.len(),
    ensures
        r == prefix_order(a@, b@, n),
{
    compare_prefix(a, b, n)
}

/// The comparison is zero exactly when the first `n` bytes agree, and
/// swapping the operands negates it.
pub proof fn lemma_order_laws(a: Seq<u8>, b: Seq<u8>, n: int)
    requires
        0 <= n <= a.len(),
        n <= b.len(),
    ensures
        (order_spec(a, b, n) == 0) <==> (a.take(n) == b.take(n)),
        order_spec(b, a, n) == -order_spec(a, b, n),
    decreases n,
{
    if n > 0 {
        lemma_order_laws(a, b, n - 1);
        if order_spec(a, b, n - 1) == 0 {
            assert(a.take(n - 1) == b.take(n - 1));
            if a[n - 1] == b[n - 1] {
                assert(a.take(n) =~= b.take(n)) by {
                    assert forall|i: int| 0 <= i < n implies a.take(n)[i] == b.take(n)[i] by {
                        if i < n - 1 {
                            assert(a.take(n - 1)[i] == b.take(n - 1)[i]);
                        }
                    }
                }
            } else {
                assert(a.take(n)[n - 1] != b.take(n)[n - 1]);
            }
        } else {
            assert(a.take(n) != b.take(n)) by {
                if a.take(n) == b.take(n) {
                    assert(a.take(n - 1) =~= b.take(n - 1)) by {
                        assert forall|i: int| 0 <= i < n - 1 implies #[trigger] a.take(n - 1)[i] == b.take(n - 1)[i] by {
                            assert(a.take(n)[i] == b.take(n)[i]);
                        }
                    }
                }
            }
        }
    } else {
        assert(a.take(0) =~= b.take(0));
    }
}

/// The length of a NUL-terminated string: the index of the first zero byte.
pub fn strlen(s: &[u8]) -> (n: usize)
    requires
        exists|i: int| 0 <= i < s@.len() && s@[i] == 0,
    ensures
        n < s@.len(),
        s@[n as int] == 0,
        forall|j: int| 0 <= j < n ==> s@[j] != 0,
{
    let mut n: usize = 0;
    while n < s.len() && s[n] != 0
        invariant
            n <= s@.len(),
            forall|j: int| 0 <= j < n ==> s@[j] != 0,
            exists|i: int| 0 <= i < s@.len() && s@[i] == 0,
        decreases s@.len() - n,
    {
        n += 1;
    }
    n
}

} // verus!
