//! Byte-level text scanning shared by the address, DNS and configuration
//! parsers: splitting on a separator, locating a two-byte pattern, and
//! reading unsigned integers the way `u8`/`u16` `from_str_radix` do.
use vstd::prelude::*;

verus! {

// ---------------------------------------------------------------------------
// Splitting
// ---------------------------------------------------------------------------

/// The pieces of `s` between occurrences of `sep` (as `str::split` yields
/// them: an empty input gives one empty piece, adjacent separators give
/// empty pieces).
pub open spec fn split_on(s: Seq<u8>, sep: u8) -> Seq<Seq<u8>>
    decreases s.len(),
{
    if s.len() == 0 {
        seq![Seq::<u8>::empty()]
    } else {
        let p = split_on(s.drop_last(), sep);
        if s.last() == sep {
            p.push(Seq::<u8>::empty())
        } else {
            p.update(p.len() - 1, p.last().push(s.last()))
        }
    }
}

/// `split_on` always yields at least one piece.
pub proof fn lemma_split_nonempty(s: Seq<u8>, sep: u8)
    ensures
        split_on(s, sep).len() >= 1,
    decreases s.len(),
{
    if s.len() > 0 {
        lemma_split_nonempty(s.drop_last(), sep);
    }
}

/// The views of a vector of byte vectors.
pub open spec fn views(v: Seq<Vec<u8>>) -> Seq<Seq<u8>> {
    v.map_values(|x: Vec<u8>| x@)
}

/// Split `s` on every `sep`.
pub fn split_bytes(s: &[u8], sep: u8) -> (parts: Vec<Vec<u8>>)
    ensures
        views(parts@) == split_on(s@, sep),
{
    let mut done: Vec<Vec<u8>> = Vec::new();
    let mut cur: Vec<u8> = Vec::new();
    let mut i: usize = 0;
    while i < s.len()
        invariant
            i <= s@.len(),
            views(done@).push(cur@) == split_on(s@.take(i as int), sep),
        decreases s@.len() - i,
    {
        proof {
            lemma_split_nonempty(s@.take(i as int), sep);
            assert(s@.take(i as int + 1).drop_last() =~= s@.take(i as int));
        }
        let b = s[i];
        if b == sep {
            let ghost before = views(done@).push(cur@);
            done.push(cur);
            cur = Vec::new();
            assert(views(done@).push(cur@) =~= before.push(Seq::<u8>::empty()));
        } else {
            let ghost before = views(done@).push(cur@);
            cur.push(b);
            assert(views(done@).push(cur@) =~= before.update(before.len() - 1, before.last().push(b)));
        }
        i += 1;
    }
    assert(s@.take(s@.len() as int) =~= s@);
    done.push(cur);
    assert(views(done@) =~= split_on(s@, sep));
    done
}

// ---------------------------------------------------------------------------
// Locating a byte or a two-byte pattern
// ---------------------------------------------------------------------------

/// Whether `s` has the pattern `a b` at index `i`.
pub open spec fn pair_at(s: Seq<u8>, i: int, a: u8, b: u8) -> bool {
    0 <= i && i + 1 < s.len() && s[i] == a && s[i + 1] == b
}

/// The first index at which `a b` occurs, if any.
pub open spec fn first_pair(s: Seq<u8>, a: u8, b: u8) -> Option<int> {
    if exists|i: int| pair_at(s, i, a, b) {
        Some(choose|i: int| pair_at(s, i, a, b) && forall|j: int| 0 <= j < i ==> !pair_at(s, j, a, b))
    } else {
        None
    }
}

/// Find the first occurrence of `a b` in `s`.
pub fn find_pair(s: &[u8], a: u8, b: u8) -> (r: Option<usize>)
    ensures
        match r {
            Some(i) => pair_at(s@, i as int, a, b) && forall|j: int| 0 <= j < i ==> !pair_at(s@, j, a, b),
            None => forall|j: int| !pair_at(s@, j, a, b),
        },
        r matches Some(i) ==> first_pair(s@, a, b) == Some(i as int),
        r is None ==> first_pair(s@, a, b) is None,
{
    if s.len() < 2 {
        return None;
    }
    let mut i: usize = 0;
    while i < s.len() - 1
        invariant
            s@.len() >= 2,
            forall|j: int| 0 <= j < i ==> !pair_at(s@, j, a, b),
        decreases s@.len() - i,
    {
        if s[i] == a && s[i + 1] == b {
            proof {
                assert(pair_at(s@, i as int, a, b));
                let c = choose|k: int| pair_at(s@, k, a, b) && forall|j: int| 0 <= j < k ==> !pair_at(s@, j, a, b);
                assert(pair_at(s@, c, a, b));
                if c < i {
                } else if c > i {
                    assert(!pair_at(s@, i as int, a, b));
                }
            }
            return Some(i);
        }
        i += 1;
    }
    None
}

/// The last index at which byte `c` occurs, if any.
pub open spec fn last_index(s: Seq<u8>, c: u8) -> Option<int> {
    if exists|i: int| 0 <= i < s.len() && s[i] == c {
        Some(choose|i: int| 0 <= i < s.len() && s[i] == c && forall|j: int| i < j < s.len() ==> s[j] != c)
    } else {
        None
    }
}

/// Find the last occurrence of byte `c` in `s`.
pub fn rfind_byte(s: &[u8], c: u8) -> (r: Option<usize>)
    ensures
        match r {
            Some(i) => i < s@.len() && s@[i as int] == c && forall|j: int| i < j < s@.len() ==> s@[j] != c,
            None => forall|j: int| 0 <= j < s@.len() ==> s@[j] != c,
        },
        r matches Some(i) ==> last_index(s@, c) == Some(i as int),
        r is None ==> last_index(s@, c) is None,
{
    let mut i: usize = s.len();
    while i > 0
        invariant
            i <= s@.len(),
            forall|j: int| i <= j < s@.len() ==> s@[j] != c,
        decreases i,
    {
        i -= 1;
        if s[i] == c {
            proof {
                let k = choose|k: int| 0 <= k < s@.len() && s@[k] == c && forall|j: int| k < j < s@.len() ==> s@[j] != c;
                if k < i {
                    assert(s@[i as int] != c);
                }
            }
            return Some(i);
        }
    }
    None
}

/// The first index at which byte `c` occurs, if any.
pub open spec fn first_index(s: Seq<u8>, c: u8) -> Option<int> {
    if exists|i: int| 0 <= i < s.len() && s[i] == c {
        Some(choose|i: int| 0 <= i < s.len() && s[i] == c && forall|j: int| 0 <= j < i ==> s[j] != c)
    } else {
        None
    }
}

/// Find the first occurrence of byte `c` in `s`.
pub fn find_byte(s: &[u8], c: u8) -> (r: Option<usize>)
    ensures
        match r {
            Some(i) => i < s@.len() && s@[i as int] == c && forall|j: int| 0 <= j < i ==> s@[j] != c,
            None => forall|j: int| 0 <= j < s@.len() ==> s@[j] != c,
        },
        r matches Some(i) ==> first_index(s@, c) == Some(i as int),
        r is None ==> first_index(s@, c) is None,
{
    let mut i: usize = 0;
    while i < s.len()
        invariant
            i <= s@.len(),
            forall|j: int| 0 <= j < i ==> s@[j] != c,
        decreases s@.len() - i,
    {
        if s[i] == c {
            proof {
                let k = choose|k: int| 0 <= k < s@.len() && s@[k] == c && forall|j: int| 0 <= j < k ==> s@[j] != c;
                if k > i {
                    assert(s@[i as int] != c);
                }
            }
            return Some(i);
        }
        i += 1;
    }
    None
}

// ---------------------------------------------------------------------------
// Unsigned integers
// ---------------------------------------------------------------------------

/// The value of an ASCII digit in base `radix` (10 or 16), if it is one.
pub open spec fn digit_value(b: u8, radix: u32) -> Option<int> {
    if 48 <= b <= 57 && (b - 48) < radix {
        Some(b - 48)
    } else if radix == 16 && 97 <= b <= 102 {
        Some(b - 87)
    } else if radix == 16 && 65 <= b <= 70 {
        Some(b - 55)
    } else {
        None
    }
}

/// Whether every byte of `s` is a digit in base `radix`.
pub open spec fn all_digits(s: Seq<u8>, radix: u32) -> bool {
    forall|i: int| 0 <= i < s.len() ==> (#[trigger] digit_value(s[i], radix)) is Some
}

/// The value of a string of digits in base `radix`.
pub open spec fn digits_value(s: Seq<u8>, radix: u32) -> int
    decreases s.len(),
{
    if s.len() == 0 {
        0
    } else {
        digits_value(s.drop_last(), radix) * radix + digit_value(s.last(), radix)->0
    }
}

/// The digits after an optional leading `+`.
pub open spec fn unsigned_body(s: Seq<u8>) -> Seq<u8> {
    if s.len() > 0 && s[0] == 43 { s.skip(1) } else { s }
}

/// What `from_str_radix` for an unsigned type whose largest value is `max`
/// returns: an optional `+`, then at least one digit, all digits, and a
/// value no larger than `max`.
pub open spec fn parse_unsigned_spec(s: Seq<u8>, radix: u32, max: int) -> Option<int> {
    let d = unsigned_body(s);
    if d.len() > 0 && all_digits(d, radix) && digits_value(d, radix) <= max {
        Some(digits_value(d, radix))
    } else {
        None
    }
}

proof fn lemma_digits_value_nonneg(s: Seq<u8>, radix: u32)
    requires
        all_digits(s, radix),
        radix == 10 || radix == 16,
    ensures
        digits_value(s, radix) >= 0,
    decreases s.len(),
{
    if s.len() > 0 {
        assert(digit_value(s[s.len() - 1], radix) is Some);
        assert(all_digits(s.drop_last(), radix)) by {
            assert forall|i: int| 0 <= i < s.drop_last().len() implies (#[trigger] digit_value(s.drop_last()[i], radix)) is Some by {
                assert(digit_value(s[i], radix) is Some);
            }
        }
        lemma_digits_value_nonneg(s.drop_last(), radix);
    }
}

/// Growing a digit string never lowers its value.
proof fn lemma_digits_value_mono(s: Seq<u8>, k: int, radix: u32)
    requires
        all_digits(s, radix),
        radix == 10 || radix == 16,
        0 <= k <= s.len(),
    ensures
        digits_value(s.take(k), radix) <= digits_value(s, radix),
    decreases s.len() - k,
{
    if k < s.len() {
        lemma_digits_value_mono(s, k + 1, radix);
        let t = s.take(k + 1);
        assert(t.drop_last() =~= s.take(k));
        assert(digit_value(s[k], radix) is Some);
        assert(all_digits(s.take(k), radix)) by {
            assert forall|i: int| 0 <= i < s.take(k).len() implies (#[trigger] digit_value(s.take(k)[i], radix)) is Some by {
                assert(digit_value(s[i], radix) is Some);
            }
        }
        lemma_digits_value_nonneg(s.take(k), radix);
        assert(digits_value(s.take(k), radix) * radix >= digits_value(s.take(k), radix)) by (nonlinear_arith)
            requires digits_value(s.take(k), radix) >= 0, radix >= 1;
    } else {
        assert(s.take(k) =~= s);
    }
}

/// The value of one digit byte.
fn digit_of(b: u8, radix: u32) -> (r: Option<u32>)
    requires
        radix == 10 || radix == 16,
    ensures
        match digit_value(b, radix) {
            Some(v) => r == Some(v as u32),
            None => r is None,
        },
{
    if 48 <= b && b <= 57 && ((b - 48) as u32) < radix {
        Some((b - 48) as u32)
    } else if radix == 16 && 97 <= b && b <= 102 {
        Some((b - 87) as u32)
    } else if radix == 16 && 65 <= b && b <= 70 {
        Some((b - 55) as u32)
    } else {
        None
    }
}

/// Parse an unsigned integer no larger than `max` in base `radix`, with an
/// optional leading `+` (as `u8`/`u16` `from_str_radix` do).
pub fn parse_unsigned(s: &[u8], radix: u32, max: u32) -> (r: Option<u32>)
    requires
        radix == 10 || radix == 16,
        max <= 0xffff,
    ensures
        match r {
            Some(x) => parse_unsigned_spec(s@, radix, max as int) == Some(x as int) && x <= max,
            None => parse_unsigned_spec(s@, radix, max as int) is None,
        },
{
    let start: usize = if s.len() > 0 && s[0] == 43 { 1 } else { 0 };
    let ghost d = unsigned_body(s@);
    assert(d =~= s@.skip(start as int));
    if start >= s.len() {
        return None;
    }
    let mut acc: u32 = 0;
    let mut i: usize = start;
    while i < s.len()
        invariant
            start <= i <= s@.len(),
            d == s@.skip(start as int),
            d == unsigned_body(s@),
            radix == 10 || radix == 16,
            max <= 0xffff,
            all_digits(d.take(i - start), radix),
            acc as int == digits_value(d.take(i - start), radix),
            acc <= max,
        decreases s@.len() - i,
    {
        let k = (i - start) as usize;
        proof {
            assert(d.take(k as int + 1).drop_last() =~= d.take(k as int));
            assert(d[k as int] == s@[i as int]);
        }
        match digit_of(s[i], radix) {
            None => {
                proof {
                    assert(!all_digits(d, radix)) by {
                        assert(digit_value(d[k as int], radix) is None);
                    }
                }
                return None;
            },
            Some(v) => {
                let next: u64 = acc as u64 * radix as u64 + v as u64;
                proof {
                    assert(all_digits(d.take(k as int + 1), radix)) by {
                        assert forall|j: int| 0 <= j < d.take(k as int + 1).len() implies (#[trigger] digit_value(d.take(k as int + 1)[j], radix)) is Some by {
                            if j < k {
                                assert(d.take(k as int + 1)[j] == d.take(k as int)[j]);
                                assert(digit_value(d.take(k as int)[j], radix) is Some);
                            }
                        }
                    }
                    assert(next == digits_value(d.take(k as int + 1), radix));
                }
                if next > max as u64 {
                    proof {
                        if all_digits(d, radix) {
                            lemma_digits_value_mono(d, k as int + 1, radix);
                        }
                    }
                    return None;
                }
                acc = next as u32;
            },
        }
        i += 1;
    }
    proof {
        assert(d.take(i - start) =~= d);
    }
    Some(acc)
}

} // verus!
