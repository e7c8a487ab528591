//! Character-level helpers over `str`: listing the characters, and finding
//! characters from either end.
use vstd::prelude::*;
use vstd::string::StrSliceExecFns;

verus! {

/// The characters of `s`.
pub fn str_chars(s: &str) -> (v: Vec<char>)
    ensures
        v@ == s@,
{
    let mut v: Vec<char> = Vec::new();
    let n = s.unicode_len();
    let mut i: usize = 0;
    while i < n
        invariant
            i <= n,
            n == s@.len(),
            v@ == s@.take(i as int),
        decreases n - i,
    {
        v.push(s.get_char(i));
        i += 1;
        assert(v@ =~= s@.take(i as int));
    }
    assert(s@.take(n as int) =~= s@);
    v
}

/// The length of `s` once every trailing `c` is removed.
pub open spec fn trimmed_len(s: Seq<char>, c: char) -> int
    decreases s.len(),
{
    if s.len() > 0 && s.last() == c {
        trimmed_len(s.drop_last(), c)
    } else {
        s.len() as int
    }
}

/// `trimmed_len` keeps a prefix and removes exactly the trailing run of `c`.
pub proof fn lemma_trimmed_len(s: Seq<char>, c: char)
    ensures
        0 <= trimmed_len(s, c) <= s.len(),
        trimmed_len(s, c) > 0 ==> s[trimmed_len(s, c) - 1] != c,
        forall|j: int| trimmed_len(s, c) <= j < s.len() ==> s[j] == c,
    decreases s.len(),
{
    if s.len() > 0 && s.last() == c {
        lemma_trimmed_len(s.drop_last(), c);
        assert forall|j: int| trimmed_len(s, c) <= j < s.len() implies s[j] == c by {
            if j < s.len() - 1 {
                assert(s.drop_last()[j] == s[j]);
            }
        }
    }
}

/// The length of `v` once every trailing `c` is removed.
pub fn trim_end_len(v: &Vec<char>, c: char) -> (n: usize)
    ensures
        n == trimmed_len(v@, c),
{
    let mut n = v.len();
    assert(v@.take(n as int) =~= v@);
    while n > 0 && v[n - 1] == c
        invariant
            n <= v@.len(),
            trimmed_len(v@.take(n as int), c) == trimmed_len(v@, c),
        decreases n,
    {
        assert(v@.take(n as int).drop_last() =~= v@.take(n - 1));
        n -= 1;
    }
    proof {
        if n > 0 {
            assert(v@.take(n as int).last() == v@[n - 1]);
        }
    }
    n
}

/// The last index below `end` where `c` occurs.
pub open spec fn last_char_before(s: Seq<char>, end: int, c: char) -> Option<int> {
    if exists|i: int| 0 <= i < end && s[i] == c {
        Some(choose|i: int| 0 <= i < end && s[i] == c && forall|j: int| i < j < end ==> s[j] != c)
    } else {
        None
    }
}

/// The last `c` before `end` is a `c` with none after it before `end`; when
/// there is none, no character before `end` is `c`.
pub proof fn lemma_last_char_before(s: Seq<char>, end: int, c: char)
    requires
        end <= s.len(),
    ensures
        last_char_before(s, end, c) matches Some(i) ==> 0 <= i < end && s[i] == c
            && forall|j: int| i < j < end ==> s[j] != c,
        last_char_before(s, end, c) is None ==> forall|j: int| 0 <= j < end ==> s[j] != c,
    decreases end,
{
    if end > 0 {
        if s[end - 1] == c {
            let w = end - 1;
            assert(0 <= w < end && s[w] == c && forall|j: int| w < j < end ==> s[j] != c);
        } else {
            lemma_last_char_before(s, end - 1, c);
            if let Some(i) = last_char_before(s, end - 1, c) {
                assert(0 <= i < end && s[i] == c && forall|j: int| i < j < end ==> s[j] != c);
            }
        }
    }
}

/// Find the last `c` in `v[..end]`.
pub fn rfind_char(v: &Vec<char>, end: usize, c: char) -> (r: Option<usize>)
    requires
        end <= v@.len(),
    ensures
        match r {
            Some(i) => i < end && v@[i as int] == c && forall|j: int| i < j < end ==> v@[j] != c,
            None => forall|j: int| 0 <= j < end ==> v@[j] != c,
        },
        r matches Some(i) ==> last_char_before(v@, end as int, c) == Some(i as int),
        r is None ==> last_char_before(v@, end as int, c) is None,
{
    let mut i = end;
    while i > 0
        invariant
            i <= end,
            end <= v@.len(),
            forall|j: int| i <= j < end ==> v@[j] != c,
        decreases i,
    {
        i -= 1;
        if v[i] == c {
            proof {
                let k = choose|k: int| 0 <= k < end && v@[k] == c && forall|j: int| k < j < end ==> v@[j] != c;
                if k < i {
                    assert(v@[i as int] != c);
                }
            }
            return Some(i);
        }
    }
    None
}

} // verus!
