//! Line and whitespace handling over characters, as `str::lines`,
//! `str::trim` and `str::split_whitespace` behave.
use vstd::prelude::*;

verus! {

/// Whether `c` has the Unicode `White_Space` property (what
/// `char::is_whitespace` tests).
pub open spec fn is_ws(c: char) -> bool {
    ('\u{9}' <= c && c <= '\u{d}') || c == ' ' || c == '\u{85}' || c == '\u{a0}' || c == '\u{1680}'
        || ('\u{2000}' <= c && c <= '\u{200a}') || c == '\u{2028}' || c == '\u{2029}' || c == '\u{202f}'
        || c == '\u{205f}' || c == '\u{3000}'
}

/// Test whether `c` is whitespace.
pub fn is_whitespace(c: char) -> (b: bool)
    ensures
        b == is_ws(c),
{
    ('\u{9}' <= c && c <= '\u{d}') || c == ' ' || c == '\u{85}' || c == '\u{a0}' || c == '\u{1680}'
        || ('\u{2000}' <= c && c <= '\u{200a}') || c == '\u{2028}' || c == '\u{2029}' || c == '\u{202f}'
        || c == '\u{205f}' || c == '\u{3000}'
}

/// The pieces of `s` between occurrences of `sep`.
pub open spec fn split_chars(s: Seq<char>, sep: char) -> Seq<Seq<char>>
    decreases s.len(),
{
    if s.len() == 0 {
        seq![Seq::<char>::empty()]
    } else {
        let p = split_chars(s.drop_last(), sep);
        if s.last() == sep {
            p.push(Seq::<char>::empty())
        } else {
            p.update(p.len() - 1, p.last().push(s.last()))
        }
    }
}

/// Splitting always yields at least one piece.
pub proof fn lemma_split_chars_nonempty(s: Seq<char>, sep: char)
    ensures
        split_chars(s, sep).len() >= 1,
    decreases s.len(),
{
    if s.len() > 0 {
        lemma_split_chars_nonempty(s.drop_last(), sep);
    }
}

/// The views of a vector of character vectors.
pub open spec fn char_views(v: Seq<Vec<char>>) -> Seq<Seq<char>> {
    v.map_values(|x: Vec<char>| x@)
}

/// Split `s` on every `sep`.
pub fn split_on_char(s: &Vec<char>, sep: char) -> (parts: Vec<Vec<char>>)
    ensures
        char_views(parts@) == split_chars(s@, sep),
{
    let mut done: Vec<Vec<char>> = Vec::new();
    let mut cur: Vec<char> = Vec::new();
    let mut i: usize = 0;
    while i < s.len()
        invariant
            i <= s@.len(),
            char_views(done@).push(cur@) == split_chars(s@.take(i as int), sep),
        decreases s@.len() - i,
    {
        proof {
            lemma_split_chars_nonempty(s@.take(i as int), sep);
            assert(s@.take(i as int + 1).drop_last() =~= s@.take(i as int));
        }
        let c = s[i];
        let ghost before = char_views(done@).push(cur@);
        if c == sep {
            done.push(cur);
            cur = Vec::new();
            assert(char_views(done@).push(cur@) =~= before.push(Seq::<char>::empty()));
        } else {
            cur.push(c);
            assert(char_views(done@).push(cur@) =~= before.update(before.len() - 1, before.last().push(c)));
        }
        i += 1;
    }
    assert(s@.take(s@.len() as int) =~= s@);
    done.push(cur);
    assert(char_views(done@) =~= split_chars(s@, sep));
    done
}

/// A line without its trailing `\r`, if it has one.
pub open spec fn strip_cr(l: Seq<char>) -> Seq<char> {
    if l.len() > 0 && l.last() == '\r' { l.drop_last() } else { l }
}

/// The lines of `s` as `str::lines` yields them: split at `\n`, a final
/// empty piece dropped, and a `\r` just before a `\n` removed (a final
/// line without a `\n` keeps a trailing `\r`).
pub open spec fn lines_spec(s: Seq<char>) -> Seq<Seq<char>> {
    let p = split_chars(s, '\n');
    let q = if p.last().len() == 0 { p.drop_last() } else { p };
    Seq::new(q.len(), |i: int| if i < p.len() - 1 { strip_cr(q[i]) } else { q[i] })
}

/// The lines of `s`.
pub fn lines(s: &Vec<char>) -> (r: Vec<Vec<char>>)
    ensures
        char_views(r@) == lines_spec(s@),
{
    let mut parts = split_on_char(s, '\n');
    proof { lemma_split_chars_nonempty(s@, '\n'); }
    let ghost p = char_views(parts@);
    let n = parts.len();
    assert(p.last() == parts@[n - 1]@);
    let mut count = n;
    if parts[n - 1].len() == 0 {
        count = n - 1;
    }
    let ghost q = if p.last().len() == 0 { p.drop_last() } else { p };
    let mut out: Vec<Vec<char>> = Vec::new();
    let mut i: usize = 0;
    while i < count
        invariant
            i <= count,
            count <= parts@.len(),
            q.len() == count,
            p == char_views(parts@),
            q == if p.last().len() == 0 { p.drop_last() } else { p },
            out@.len() == i,
            n == p.len(),
            forall|k: int| 0 <= k < i ==> (#[trigger] out@[k])@ == if k < n - 1 { strip_cr(q[k]) } else { q[k] },
        decreases count - i,
    {
        let line = &parts[i];
        assert(line@ == q[i as int]);
        let m = line.len();
        let mut l: Vec<char> = Vec::new();
        let keep = if i + 1 < n && m > 0 && line[m - 1] == '\r' { m - 1 } else { m };
        let mut j: usize = 0;
        while j < keep
            invariant
                j <= keep,
                keep <= line@.len(),
                l@ == line@.take(j as int),
            decreases keep - j,
        {
            l.push(line[j]);
            j += 1;
            assert(l@ =~= line@.take(j as int));
        }
        assert(l@ =~= if i < n - 1 { strip_cr(q[i as int]) } else { q[i as int] });
        out.push(l);
        i += 1;
    }
    assert(char_views(out@) =~= lines_spec(s@));
    out
}

/// The index of the first non-whitespace character at or after `i`.
pub open spec fn skip_ws_from(s: Seq<char>, i: int) -> int
    decreases s.len() - i,
{
    if i < s.len() && i >= 0 && is_ws(s[i]) { skip_ws_from(s, i + 1) } else { i }
}

/// `s` with leading and trailing whitespace removed.
pub open spec fn trim_spec(s: Seq<char>) -> Seq<char> {
    let a = skip_ws_from(s, 0);
    let t = s.skip(a);
    t.take(trim_end_len(t))
}

/// The length of `s` once trailing whitespace is removed.
pub open spec fn trim_end_len(s: Seq<char>) -> int
    decreases s.len(),
{
    if s.len() > 0 && is_ws(s.last()) { trim_end_len(s.drop_last()) } else { s.len() as int }
}

proof fn lemma_trim_end_len(s: Seq<char>)
    ensures
        0 <= trim_end_len(s) <= s.len(),
    decreases s.len(),
{
    if s.len() > 0 && is_ws(s.last()) {
        lemma_trim_end_len(s.drop_last());
    }
}

proof fn lemma_skip_ws(s: Seq<char>, i: int)
    requires
        0 <= i <= s.len(),
    ensures
        i <= skip_ws_from(s, i) <= s.len(),
    decreases s.len() - i,
{
    if i < s.len() && is_ws(s[i]) {
        lemma_skip_ws(s, i + 1);
    }
}

/// Remove leading and trailing whitespace.
pub fn trim(s: &Vec<char>) -> (r: Vec<char>)
    ensures
        r@ == trim_spec(s@),
{
    let mut a: usize = 0;
    while a < s.len() && is_whitespace(s[a])
        invariant
            a <= s@.len(),
            skip_ws_from(s@, a as int) == skip_ws_from(s@, 0),
        decreases s@.len() - a,
    {
        a += 1;
    }
    let ghost t = s@.skip(a as int);
    let mut e: usize = s.len();
    assert(t.take(e - a) =~= t);
    while e > a && is_whitespace(s[e - 1])
        invariant
            a <= e <= s@.len(),
            t == s@.skip(a as int),
            trim_end_len(t.take(e - a)) == trim_end_len(t),
        decreases e,
    {
        assert(t.take(e - a).drop_last() =~= t.take(e - a - 1));
        e -= 1;
    }
    proof {
        if e > a {
            assert(t.take(e - a).last() == s@[e - 1]);
        }
    }
    let mut r: Vec<char> = Vec::new();
    let mut i: usize = a;
    while i < e
        invariant
            a <= i <= e,
            e <= s@.len(),
            r@ == s@.subrange(a as int, i as int),
        decreases e - i,
    {
        r.push(s[i]);
        i += 1;
        assert(r@ =~= s@.subrange(a as int, i as int));
    }
    assert(r@ =~= trim_spec(s@));
    r
}

/// The whitespace-separated words of `s`, as `str::split_whitespace`
/// yields them (no empty words).
pub open spec fn words_spec(s: Seq<char>) -> Seq<Seq<char>>
    decreases s.len(),
{
    if s.len() == 0 {
        Seq::empty()
    } else {
        let w = words_spec(s.drop_last());
        let c = s.last();
        if is_ws(c) {
            w
        } else if s.len() >= 2 && !is_ws(s[s.len() - 2]) {
            w.update(w.len() - 1, w.last().push(c))
        } else {
            w.push(seq![c])
        }
    }
}

proof fn lemma_words_nonempty_when_last_word(s: Seq<char>)
    requires
        s.len() > 0,
        !is_ws(s.last()),
    ensures
        words_spec(s).len() > 0,
    decreases s.len(),
{
    if s.len() >= 2 && !is_ws(s[s.len() - 2]) {
        assert(s.drop_last().last() == s[s.len() - 2]);
        lemma_words_nonempty_when_last_word(s.drop_last());
    }
}

/// Split `s` into whitespace-separated words.
pub fn split_whitespace(s: &Vec<char>) -> (r: Vec<Vec<char>>)
    ensures
        char_views(r@) == words_spec(s@),
{
    let mut out: Vec<Vec<char>> = Vec::new();
    let mut i: usize = 0;
    while i < s.len()
        invariant
            i <= s@.len(),
            char_views(out@) == words_spec(s@.take(i as int)),
        decreases s@.len() - i,
    {
        let c = s[i];
        let ghost pre = s@.take(i as int);
        let ghost now = s@.take(i as int + 1);
        assert(now.drop_last() =~= pre);
        assert(now.last() == c);
        if is_whitespace(c) {
        } else if i >= 1 && !is_whitespace(s[i - 1]) {
            assert(now[now.len() - 2] == s@[i - 1]);
            proof { lemma_words_nonempty_when_last_word(pre); }
            let k = out.len() - 1;
            let mut last: Vec<char> = Vec::new();
            std::mem::swap(&mut last, &mut out[k]);
            let ghost before = char_views(out@);
            last.push(c);
            out.set(k, last);
            proof {
                assert(char_views(out@) =~= words_spec(pre).update(k as int, words_spec(pre).last().push(c)));
            }
        } else {
            let mut w: Vec<char> = Vec::new();
            w.push(c);
            assert(w@ =~= seq![c]);
            out.push(w);
            assert(char_views(out@) =~= words_spec(pre).push(seq![c]));
        }
        i += 1;
    }
    assert(s@.take(s@.len() as int) =~= s@);
    out
}

/// The part of `s` before its first `c` (all of `s` if there is none).
pub open spec fn before_char(s: Seq<char>, c: char) -> Seq<char> {
    split_chars(s, c)[0]
}

/// The part of a line before its first `#`.
pub fn strip_comment(s: &Vec<char>) -> (r: Vec<char>)
    ensures
        r@ == before_char(s@, '#'),
{
    let parts = split_on_char(s, '#');
    proof { lemma_split_chars_nonempty(s@, '#'); }
    let mut r: Vec<char> = Vec::new();
    let first = &parts[0];
    assert(first@ == char_views(parts@)[0]);
    let mut i: usize = 0;
    while i < first.len()
        invariant
            i <= first@.len(),
            r@ == first@.take(i as int),
        decreases first@.len() - i,
    {
        r.push(first[i]);
        i += 1;
        assert(r@ =~= first@.take(i as int));
    }
    assert(r@ =~= first@);
    r
}

} // verus!
