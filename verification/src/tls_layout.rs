//! Thread-local storage layout (x86-64, ELF variant II): finding the TLS
//! program header through the auxiliary vector, and placing a TLS block and
//! its thread control block inside a mapping.
use vstd::prelude::*;

verus! {

/// The program-header type of the TLS template.
pub const PT_TLS: u32 = 7;
/// The auxiliary-vector key that ends the vector.
pub const AT_NULL: usize = 0;
/// The auxiliary-vector key of the program headers' address.
pub const AT_PHDR: usize = 3;
/// The auxiliary-vector key of one program header's size.
pub const AT_PHENT: usize = 4;
/// The auxiliary-vector key of the number of program headers.
pub const AT_PHNUM: usize = 5;
/// Size reserved for the thread control block at the thread pointer.
pub const TCB_SIZE: usize = 64;
/// The page size a TLS mapping is rounded to.
pub const PAGE_SIZE: usize = 4096;

/// `x` rounded up to a multiple of `a` (no rounding for `a <= 1`).
pub open spec fn align_up_spec(x: int, a: int) -> int {
    if a <= 1 { x } else { (x + a - 1) / a * a }
}

/// Round `x` up to a multiple of `a`; alignments of 0 and 1 leave it as is.
pub fn align_up(x: usize, a: usize) -> (r: usize)
    requires
        x + a <= usize::MAX,
    ensures
        r == align_up_spec(x as int, a as int),
        x <= r,
        a > 1 ==> r < x + a && r % a == 0,
{
    if a <= 1 {
        x
    } else {
        let q = (x + (a - 1)) / a;
        proof {
            let y: int = x + a - 1;
            let t: int = a as int;
            let qq: int = q as int;
            assert(qq * t <= y) by (nonlinear_arith)
                requires qq == y / t, t > 0, y >= 0;
            assert(qq * t > y - t) by (nonlinear_arith)
                requires qq == y / t, t > 0, y >= 0;
            assert((qq * t) % t == 0) by (nonlinear_arith)
                requires t > 0, qq >= 0;
        }
        q * a
    }
}

/// The TLS template described by the `PT_TLS` program header.
#[derive(Clone, Copy, PartialEq, Eq, Debug, Structural)]
pub struct TlsTemplate {
    pub tpl: usize,
    pub filesz: usize,
    pub memsz: usize,
    pub align: usize,
}

/// The program header fields the TLS search reads.
#[derive(Clone, Copy, PartialEq, Eq, Debug, Structural)]
pub struct PhdrInfo {
    pub p_type: u32,
    pub p_vaddr: u64,
    pub p_filesz: u64,
    pub p_memsz: u64,
    pub p_align: u64,
}

/// The template of the first `PT_TLS` header, with alignment 0 read as 1.
pub open spec fn tls_template_spec(h: Seq<PhdrInfo>) -> Option<TlsTemplate>
    decreases h.len(),
{
    if h.len() == 0 {
        None
    } else if h[0].p_type == PT_TLS {
        Some(TlsTemplate {
            tpl: h[0].p_vaddr as usize,
            filesz: h[0].p_filesz as usize,
            memsz: h[0].p_memsz as usize,
            align: if h[0].p_align == 0 { 1 } else { h[0].p_align as usize },
        })
    } else {
        tls_template_spec(h.skip(1))
    }
}

/// Find the TLS template among the program headers.
pub fn find_tls_template(h: &[PhdrInfo]) -> (r: Option<TlsTemplate>)
    ensures
        r == tls_template_spec(h@),
{
    let mut i: usize = 0;
    assert(h@.skip(0) =~= h@);
    while i < h.len()
        invariant
            i <= h@.len(),
            tls_template_spec(h@) == tls_template_spec(h@.skip(i as int)),
        decreases h@.len() - i,
    {
        let p = h[i];
        assert(h@.skip(i as int)[0] == p);
        if p.p_type == PT_TLS {
            let a: usize = if p.p_align == 0 { 1 } else { p.p_align as usize };
            return Some(TlsTemplate {
                tpl: p.p_vaddr as usize,
                filesz: p.p_filesz as usize,
                memsz: p.p_memsz as usize,
                align: a,
            });
        }
        assert(h@.skip(i as int).skip(1) =~= h@.skip(i + 1));
        i += 1;
    }
    None
}

/// The index of the NULL that ends a pointer list starting at `p`.
pub open spec fn list_end(w: Seq<usize>, p: int) -> Option<int>
    decreases w.len() - p,
{
    if p < 0 || p >= w.len() {
        None
    } else if w[p] == 0 {
        Some(p)
    } else {
        list_end(w, p + 1)
    }
}

/// The program-header location `(phdr, phent, phnum)` recorded so far.
pub open spec fn aux_update(acc: (usize, usize, usize), t: usize, v: usize) -> (usize, usize, usize) {
    if t == AT_PHDR {
        (v, acc.1, acc.2)
    } else if t == AT_PHENT {
        (acc.0, v, acc.2)
    } else if t == AT_PHNUM {
        (acc.0, acc.1, v)
    } else {
        acc
    }
}

/// The program-header location the auxiliary vector entries from `p` on
/// give, until the `AT_NULL` entry.
pub open spec fn aux_scan(w: Seq<usize>, p: int, acc: (usize, usize, usize)) -> Option<(usize, usize, usize)>
    decreases w.len() - p,
{
    if p < 0 || p + 1 >= w.len() {
        None
    } else if w[p] == AT_NULL {
        Some(acc)
    } else {
        aux_scan(w, p + 2, aux_update(acc, w[p], w[p + 1]))
    }
}

/// The program-header location found by walking the initial stack `w`:
/// `argc`, the arguments and their NULL, the environment and its NULL,
/// then the auxiliary vector.
pub open spec fn auxv_spec(w: Seq<usize>) -> Option<(usize, usize, usize)> {
    if w.len() == 0 {
        None
    } else {
        match list_end(w, w[0] + 2) {
            Some(e) => aux_scan(w, e + 1, (0, 0, 0)),
            None => None,
        }
    }
}

/// Walk the initial stack to the auxiliary vector and read the
/// program-header location from it.
pub fn parse_auxv(w: &[usize]) -> (r: Option<(usize, usize, usize)>)
    ensures
        r == auxv_spec(w@),
{
    if w.len() == 0 {
        return None;
    }
    let argc = w[0];
    if argc >= w.len() - 1 {
        proof { assert(list_end(w@, w@[0] + 2) is None); }
        return None;
    }
    let mut p: usize = argc + 2;
    while p < w.len() && w[p] != 0
        invariant
            w@.len() > 0,
            argc == w@[0],
            argc + 2 <= p,
            p <= w@.len(),
            list_end(w@, w@[0] + 2) == list_end(w@, p as int),
        decreases w@.len() - p,
    {
        p += 1;
    }
    if p >= w.len() {
        return None;
    }
    let mut q: usize = p + 1;
    let mut acc: (usize, usize, usize) = (0, 0, 0);
    while q < w.len() && q + 1 < w.len() && w[q] != AT_NULL
        invariant
            w@.len() > 0,
            list_end(w@, w@[0] + 2) == Some(p as int),
            q <= w@.len(),
            aux_scan(w@, p + 1, (0, 0, 0)) == aux_scan(w@, q as int, acc),
        decreases w@.len() - q,
    {
        let t = w[q];
        let v = w[q + 1];
        acc = if t == AT_PHDR {
            (v, acc.1, acc.2)
        } else if t == AT_PHENT {
            (acc.0, v, acc.2)
        } else if t == AT_PHNUM {
            (acc.0, acc.1, v)
        } else {
            acc
        };
        q += 2;
    }
    if q >= w.len() || q + 1 >= w.len() {
        return None;
    }
    Some(acc)
}

/// The sizes of a fresh TLS mapping: the static block (the template's memory
/// size rounded to its alignment, at least 16) and the whole mapping (block,
/// control block and alignment slack, rounded to pages).
pub fn block_sizes(t: &TlsTemplate) -> (r: (usize, usize))
    requires
        t.memsz as int + 2 * t.align as int + 0x3000 <= usize::MAX,
    ensures
        ({
            let a = if t.align < 16 { 16 } else { t.align as int };
            &&& r.0 == align_up_spec(t.memsz as int, a)
            &&& r.1 == align_up_spec(r.0 + TCB_SIZE + a, PAGE_SIZE as int)
        }),
{
    let align = if t.align < 16 { 16 } else { t.align };
    let tls_size = align_up(t.memsz, align);
    let total = align_up(tls_size + TCB_SIZE + align, PAGE_SIZE);
    (tls_size, total)
}

/// Where the block and the thread pointer go inside a mapping at `base`:
/// the block starts at the first aligned address, and the thread pointer
/// sits right after it.
pub fn place_block(base: usize, tls_size: usize, align: usize) -> (r: (usize, usize))
    requires
        base + align + tls_size + TCB_SIZE <= usize::MAX,
    ensures
        r.0 == align_up_spec(base as int, align as int),
        r.1 == r.0 + tls_size,
{
    let start = align_up(base, align);
    (start, start + tls_size)
}

/// The block, and the control block at the thread pointer, lie inside the
/// mapping, and the block starts on an aligned address.
pub proof fn lemma_block_fits(memsz: int, a: int, base: int)
    requires
        a >= 16,
        memsz >= 0,
        base >= 0,
    ensures
        ({
            let tls_size = align_up_spec(memsz, a);
            let total = align_up_spec(tls_size + TCB_SIZE + a, PAGE_SIZE as int);
            let start = align_up_spec(base, a);
            let tp = start + tls_size;
            &&& base <= start
            &&& start % a == 0
            &&& tls_size >= memsz
            &&& tp + TCB_SIZE <= base + total
        }),
{
    let tls_size = align_up_spec(memsz, a);
    let y = memsz + a - 1;
    assert(y / a * a > y - a && y / a * a <= y) by (nonlinear_arith)
        requires a > 0, y >= 0;
    let z = base + a - 1;
    assert(z / a * a > z - a && z / a * a <= z) by (nonlinear_arith)
        requires a > 0, z >= 0;
    assert((z / a * a) % a == 0) by (nonlinear_arith)
        requires a > 0, z >= 0;
    let u = tls_size + TCB_SIZE + a + 4095;
    assert(u / 4096 * 4096 > u - 4096) by (nonlinear_arith)
        requires u >= 0;
}

} // verus!
