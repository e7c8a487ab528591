//! UTF-8 paths: a borrowed `Path` and an owned `PathBuf`, with the
//! component arithmetic (`file_name`, `parent`, `extension`, `push`, `pop`).
use vstd::prelude::*;
use vstd::string::StrSliceExecFns;
use vstd::string::StringExecFns;
use crate::ffi::{OsStr, OsString};
use crate::text::{str_chars, trimmed_len, lemma_trimmed_len, trim_end_len, last_char_before, rfind_char, lemma_last_char_before};

verus! {

/// A borrowed path.
#[derive(Clone, Copy, Debug)]
pub struct Path<'a> {
    pub inner: &'a str,
}

/// An owned, mutable path.
#[derive(Clone, Debug)]
pub struct PathBuf {
    pub inner: String,
}

impl<'a> View for Path<'a> {
    type V = Seq<char>;

    open spec fn view(&self) -> Seq<char> {
        self.inner@
    }
}

impl View for PathBuf {
    type V = Seq<char>;

    open spec fn view(&self) -> Seq<char> {
        self.inner@
    }
}

/// The separator character.
pub open spec fn slash() -> char {
    '/'
}

/// The last component of a path, ignoring trailing separators.
pub open spec fn file_name_spec(s: Seq<char>) -> Option<Seq<char>> {
    let t = trimmed_len(s, '/');
    if t == 0 {
        None
    } else {
        match last_char_before(s, t, '/') {
            Some(i) => Some(s.subrange(i + 1, t)),
            None => Some(s.take(t)),
        }
    }
}

/// The path without its last component: `/` for a top-level path, nothing
/// for a path without a separator.
pub open spec fn parent_spec(s: Seq<char>) -> Option<Seq<char>> {
    let t = trimmed_len(s, '/');
    match last_char_before(s, t, '/') {
        Some(i) => if i == 0 { Some(seq!['/']) } else { Some(s.take(i)) },
        None => None,
    }
}

/// The part of the file name after its last `.`, unless that `.` starts the
/// name or there is none.
pub open spec fn extension_spec(s: Seq<char>) -> Option<Seq<char>> {
    match file_name_spec(s) {
        None => None,
        Some(n) => match last_char_before(n, n.len() as int, '.') {
            Some(i) => if i == 0 { None } else { Some(n.skip(i + 1)) },
            None => None,
        },
    }
}

/// `base` with `p` pushed: an absolute `p` replaces it, otherwise `p` is
/// appended after a separator (one is added unless `base` is empty or
/// already ends with one).
pub open spec fn push_spec(base: Seq<char>, p: Seq<char>) -> Seq<char> {
    if p.len() > 0 && p[0] == '/' {
        p
    } else if base.len() > 0 && base.last() != '/' {
        base.push('/') + p
    } else {
        base + p
    }
}

impl<'a> Path<'a> {
    /// Borrow `s` as a path.
    pub fn new(s: &'a str) -> (r: Path<'a>)
        ensures
            r@ == s@,
    {
        Path { inner: s }
    }

    /// The path as a string.
    pub fn to_str(&self) -> (r: Option<&'a str>)
        ensures
            r matches Some(t) && t@ == self@,
    {
        Some(self.inner)
    }

    /// The path as a string; no replacement is ever needed.
    pub fn to_string_lossy(&self) -> (r: &'a str)
        ensures
            r@ == self@,
    {
        self.inner
    }

    /// The path as an OS string.
    pub fn as_os_str(&self) -> (r: OsStr<'a>)
        ensures
            r@ == self@,
    {
        OsStr::new(self.inner)
    }

    /// An owned copy.
    pub fn to_path_buf(&self) -> (r: PathBuf)
        ensures
            r@ == self@,
    {
        PathBuf { inner: self.inner.to_owned() }
    }

    /// The path for display.
    pub fn display(&self) -> (r: &'a str)
        ensures
            r@ == self@,
    {
        self.inner
    }

    /// Whether the path is empty.
    pub fn is_empty(&self) -> (b: bool)
        ensures
            b == (self@.len() == 0),
    {
        self.inner.is_empty()
    }

    /// The last component, ignoring trailing separators.
    pub fn file_name(&self) -> (r: Option<OsStr<'a>>)
        ensures
            match file_name_spec(self@) {
                Some(n) => r matches Some(o) && o@ == n,
                None => r is None,
            },
    {
        let v = str_chars(self.inner);
        let t = trim_end_len(&v, '/');
        proof { lemma_trimmed_len(self@, '/'); }
        if t == 0 {
            return None;
        }
        match rfind_char(&v, t, '/') {
            Some(i) => Some(OsStr::new(self.inner.substring_char(i + 1, t))),
            None => Some(OsStr::new(self.inner.substring_char(0, t))),
        }
    }

    /// The path without its last component.
    pub fn parent(&self) -> (r: Option<Path<'a>>)
        ensures
            match parent_spec(self@) {
                Some(p) => r matches Some(x) && x@ == p,
                None => r is None,
            },
    {
        let v = str_chars(self.inner);
        let t = trim_end_len(&v, '/');
        proof { lemma_trimmed_len(self@, '/'); }
        match rfind_char(&v, t, '/') {
            Some(i) => {
                if i == 0 {
                    let root: &'static str = "/";
                    proof { reveal_strlit("/"); }
                    assert(root@ =~= seq!['/']);
                    Some(Path::new(root))
                } else {
                    Some(Path::new(self.inner.substring_char(0, i)))
                }
            },
            None => None,
        }
    }

    /// The part of the file name after its last `.`.
    pub fn extension(&self) -> (r: Option<OsStr<'a>>)
        ensures
            match extension_spec(self@) {
                Some(e) => r matches Some(o) && o@ == e,
                None => r is None,
            },
    {
        let name = match self.file_name() {
            Some(n) => n,
            None => return None,
        };
        let v = str_chars(name.inner);
        match rfind_char(&v, v.len(), '.') {
            Some(i) => {
                if i == 0 {
                    None
                } else {
                    Some(OsStr::new(name.inner.substring_char(i + 1, v.len())))
                }
            },
            None => None,
        }
    }

    /// This path with `p` pushed onto it.
    pub fn join(&self, p: &str) -> (r: PathBuf)
        ensures
            r@ == push_spec(self@, p@),
    {
        let mut b = self.to_path_buf();
        b.push(p);
        b
    }
}

impl PathBuf {
    /// An empty path.
    pub fn new() -> (r: PathBuf)
        ensures
            r@ == Seq::<char>::empty(),
    {
        PathBuf { inner: String::new() }
    }

    /// A path holding a copy of `s`.
    pub fn from(s: &str) -> (r: PathBuf)
        ensures
            r@ == s@,
    {
        PathBuf { inner: s.to_owned() }
    }

    /// A path taking ownership of `s`.
    pub fn from_string(s: String) -> (r: PathBuf)
        ensures
            r@ == s@,
    {
        PathBuf { inner: s }
    }

    /// Borrow as a `Path`.
    pub fn as_path(&self) -> (r: Path<'_>)
        ensures
            r@ == self@,
    {
        Path { inner: self.inner.as_str() }
    }

    /// Push `p`: an absolute `p` replaces the path, otherwise it is appended
    /// after a separator.
    pub fn push(&mut self, p: &str)
        ensures
            final(self)@ == push_spec(old(self)@, p@),
    {
        let plen = p.unicode_len();
        if plen > 0 && p.get_char(0) == '/' {
            self.inner = p.to_owned();
            return;
        }
        let n = self.inner.as_str().unicode_len();
        if n > 0 && self.inner.as_str().get_char(n - 1) != '/' {
            let sep: &'static str = "/";
            proof { reveal_strlit("/"); }
            self.inner.append(sep);
            assert(self.inner@ =~= old(self)@.push('/'));
        }
        self.inner.append(p);
    }

    /// Truncate to the parent; `false` (and no change) if there is none.
    pub fn pop(&mut self) -> (b: bool)
        ensures
            match parent_spec(old(self)@) {
                Some(p) => b && final(self)@ == p,
                None => !b && final(self)@ == old(self)@,
            },
    {
        let next = match self.as_path().parent() {
            Some(parent) => Some(parent.inner.to_owned()),
            None => None,
        };
        match next {
            Some(s) => {
                self.inner = s;
                true
            },
            None => false,
        }
    }

    /// The path as an OS string.
    pub fn into_os_string(self) -> (r: OsString)
        ensures
            r@ == self@,
    {
        OsString::from_string(self.inner)
    }

    /// The path for display.
    pub fn display(&self) -> (r: &str)
        ensures
            r@ == self@,
    {
        self.inner.as_str()
    }
}

/// A single path component: non-empty and free of separators.
pub open spec fn is_component(p: Seq<char>) -> bool {
    p.len() > 0 && forall|i: int| 0 <= i < p.len() ==> p[i] != '/'
}

/// The file name is a single component: non-empty and free of separators.
pub proof fn lemma_file_name_is_component(s: Seq<char>)
    ensures
        file_name_spec(s) matches Some(n) ==> is_component(n),
{
    lemma_trimmed_len(s, '/');
    let t = trimmed_len(s, '/');
    lemma_last_char_before(s, t, '/');
    if t > 0 {
        match last_char_before(s, t, '/') {
            Some(i) => {
                assert(0 <= i < t && s[i] == '/' && forall|j: int| i < j < t ==> s[j] != '/');
                assert(i != t - 1);
                let n = s.subrange(i + 1, t);
                assert forall|k: int| 0 <= k < n.len() implies n[k] != '/' by {
                    assert(n[k] == s[i + 1 + k]);
                }
            },
            None => {
                let n = s.take(t);
                assert forall|k: int| 0 <= k < n.len() implies n[k] != '/' by {
                    assert(n[k] == s[k]);
                    if s[k] == '/' {
                        assert(exists|i: int| 0 <= i < t && s[i] == '/');
                    }
                }
            },
        }
    }
}

/// The file name is the last component before any trailing separators:
/// the text between the last separator before them (or the start) and
/// them. The parent is what precedes that separator (the root for a
/// top-level path), and there is a parent exactly when there is such a
/// separator.
pub proof fn lemma_path_parts(s: Seq<char>)
    ensures
        ({
            let t = trimmed_len(s, '/');
            &&& file_name_spec(s) matches Some(n) ==> 0 < n.len() <= t && n == s.subrange(t - n.len(), t)
                && (t == n.len() || s[t - n.len() - 1] == '/')
            &&& file_name_spec(s) is None <==> forall|j: int| 0 <= j < s.len() ==> s[j] == '/'
            &&& parent_spec(s) is Some <==> exists|j: int| 0 <= j < t && s[j] == '/'
            &&& parent_spec(s) matches Some(p) ==> (p == seq!['/'] && s[0] == '/') || (p.len() > 0
                && p == s.take(p.len() as int) && s[p.len() as int] == '/' && (file_name_spec(s) matches Some(n)
                && p.len() + 1 + n.len() == t))
        }),
{
    lemma_trimmed_len(s, '/');
    let t = trimmed_len(s, '/');
    lemma_last_char_before(s, t, '/');
    lemma_file_name_is_component(s);
    if t == 0 {
        assert forall|j: int| 0 <= j < s.len() implies s[j] == '/' by {}
    } else {
        assert(s[t - 1] != '/');
        match last_char_before(s, t, '/') {
            Some(i) => {
                let n = s.subrange(i + 1, t);
                assert(n.len() == t - i - 1);
                assert(n.len() > 0);
                if i > 0 {
                    assert(s.take(i).len() == i);
                }
            },
            None => {},
        }
    }
}

/// The extension is taken from the file name alone: a path has one exactly
/// when its file name holds a `.` past its first character, and then it is
/// what follows the file name's last `.` (so it holds neither `.` nor `/`).
pub proof fn lemma_extension_of_file_name(s: Seq<char>)
    ensures
        extension_spec(s) is Some <==> (file_name_spec(s) matches Some(n) && exists|k: int| 0 < k < n.len() && n[k] == '.'),
        extension_spec(s) matches Some(e) ==> (file_name_spec(s) matches Some(n) && ({
            let k = n.len() - e.len() - 1;
            &&& 0 < k && n[k] == '.'
            &&& n.skip(k + 1) == e
            &&& forall|i: int| 0 <= i < e.len() ==> e[i] != '.' && e[i] != '/'
        })),
{
    lemma_file_name_is_component(s);
    match file_name_spec(s) {
        None => {},
        Some(n) => {
            lemma_last_char_before(n, n.len() as int, '.');
            match last_char_before(n, n.len() as int, '.') {
                Some(i) => {
                    assert(0 <= i < n.len() && n[i] == '.' && forall|j: int| i < j < n.len() ==> n[j] != '.');
                    if i == 0 {
                        if exists|k: int| 0 < k < n.len() && n[k] == '.' {
                            let k = choose|k: int| 0 < k < n.len() && n[k] == '.';
                            assert(n[k] != '.');
                        }
                    } else {
                        let e = n.skip(i + 1);
                        assert(n.len() - e.len() - 1 == i);
                        assert forall|q: int| 0 <= q < e.len() implies e[q] != '.' && e[q] != '/' by {
                            assert(e[q] == n[i + 1 + q]);
                        }
                    }
                },
                None => {
                    if exists|k: int| 0 < k < n.len() && n[k] == '.' {
                        let k = choose|k: int| 0 < k < n.len() && n[k] == '.';
                        assert(exists|i: int| 0 <= i < n.len() && n[i] == '.');
                    }
                },
            }
        },
    }
}

proof fn lemma_trimmed_component_end(s: Seq<char>, p: Seq<char>)
    requires
        is_component(p),
        s.len() >= p.len(),
        s.subrange(s.len() - p.len(), s.len() as int) == p,
    ensures
        trimmed_len(s, '/') == s.len(),
{
    assert(s.last() == p.last());
    assert(p[p.len() - 1] != '/');
}

/// Pushing a single component and asking for the file name gives back that
/// component.
pub proof fn lemma_join_file_name(base: Seq<char>, p: Seq<char>)
    requires
        is_component(p),
    ensures
        file_name_spec(push_spec(base, p)) == Some(p),
{
    let s = push_spec(base, p);
    let k = s.len() - p.len();
    assert(s.subrange(k, s.len() as int) =~= p);
    lemma_trimmed_component_end(s, p);
    let t = trimmed_len(s, '/');
    assert(t == s.len());
    if base.len() > 0 && base.last() != '/' {
        assert(s[k - 1] == '/');
        assert forall|j: int| k - 1 < j < t implies s[j] != '/' by {
            assert(s[j] == p[j - k]);
        }
        let i = choose|i: int| 0 <= i < t && s[i] == '/' && forall|j: int| i < j < t ==> s[j] != '/';
        assert(i == k - 1) by {
            if i < k - 1 {
                assert(s[k - 1] != '/');
            }
            if i > k - 1 {
                assert(s[i] == p[i - k]);
            }
        }
        assert(s.subrange(k, t) =~= p);
    } else {
        if base.len() > 0 {
            assert(s[k - 1] == '/');
            assert forall|j: int| k - 1 < j < t implies s[j] != '/' by {
                assert(s[j] == p[j - k]);
            }
            let i = choose|i: int| 0 <= i < t && s[i] == '/' && forall|j: int| i < j < t ==> s[j] != '/';
            assert(i == k - 1) by {
                if i < k - 1 {
                    assert(s[k - 1] != '/');
                }
                if i > k - 1 {
                    assert(s[i] == p[i - k]);
                }
            }
            assert(s.subrange(k, t) =~= p);
        } else {
            assert(s =~= p);
            assert(!exists|i: int| 0 <= i < t && s[i] == '/');
            assert(s.take(t) =~= p);
        }
    }
}

/// Pushing a single component onto a non-empty path without a trailing
/// separator (or onto `/`), then popping, gives back the path it started from.
pub proof fn lemma_push_pop(base: Seq<char>, p: Seq<char>)
    requires
        is_component(p),
        base.len() > 0,
        base.last() != '/' || base == seq!['/'],
    ensures
        parent_spec(push_spec(base, p)) == Some(base),
{
    let s = push_spec(base, p);
    let k = s.len() - p.len();
    assert(s.subrange(k, s.len() as int) =~= p);
    lemma_trimmed_component_end(s, p);
    let t = trimmed_len(s, '/');
    assert(s[k - 1] == '/');
    assert forall|j: int| k - 1 < j < t implies s[j] != '/' by {
        assert(s[j] == p[j - k]);
    }
    let i = choose|i: int| 0 <= i < t && s[i] == '/' && forall|j: int| i < j < t ==> s[j] != '/';
    assert(i == k - 1) by {
        if i < k - 1 {
            assert(s[k - 1] != '/');
        }
        if i > k - 1 {
            assert(s[i] == p[i - k]);
        }
    }
    if base == seq!['/'] {
        assert(k - 1 == 0);
    } else {
        assert(s.take(k - 1) =~= base);
    }
}

} // verus!
