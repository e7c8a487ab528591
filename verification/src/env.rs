//! Command-line arguments and environment variables, read from the argument
//! and environment strings the kernel placed on the initial stack.
use vstd::prelude::*;
use vstd::string::StrSliceExecFns;
use vstd::utf8::{valid_utf8, decode_utf8};
use vstd::string::StringSliceAdditionalSpecFns;
use crate::utf8::str_from_utf8;
use crate::text::str_chars;
use crate::path::PathBuf;

verus! {

/// The argument and environment strings of the process, each without its
/// terminating NUL, in the order the kernel laid them out.
pub struct ProcessEnv {
    pub argv: Vec<Vec<u8>>,
    pub envp: Vec<Vec<u8>>,
}

/// Where `argv` and `envp` start in the initial stack: `argc` is the first
/// word, the argument pointers follow, then a NULL, then the environment
/// pointers.
pub fn stack_layout(argc: usize) -> (r: (usize, usize))
    requires
        argc <= usize::MAX - 2,
    ensures
        r.0 == 1,
        r.1 == argc + 2,
{
    (1, argc + 2)
}

/// The text of an argument: its characters when it is valid UTF-8,
/// otherwise the empty string.
pub open spec fn arg_text(b: Seq<u8>) -> Seq<char> {
    if valid_utf8(b) { decode_utf8(b) } else { Seq::empty() }
}

/// The first index at which character `c` occurs, if any.
pub open spec fn first_char(s: Seq<char>, c: char) -> Option<int> {
    if exists|i: int| 0 <= i < s.len() && s[i] == c {
        Some(choose|i: int| 0 <= i < s.len() && s[i] == c && forall|j: int| 0 <= j < i ==> s[j] != c)
    } else {
        None
    }
}

/// The `(key, value)` pair an environment entry stands for: a valid UTF-8
/// entry split at its first `=`; other entries stand for nothing.
pub open spec fn entry_pair(b: Seq<u8>) -> Option<(Seq<char>, Seq<char>)> {
    if valid_utf8(b) {
        let s = decode_utf8(b);
        match first_char(s, '=') {
            Some(i) => Some((s.take(i), s.skip(i + 1))),
            None => None,
        }
    } else {
        None
    }
}

/// The pairs of the environment entries, in order, skipping entries that
/// stand for nothing.
pub open spec fn env_pairs(entries: Seq<Seq<u8>>) -> Seq<(Seq<char>, Seq<char>)>
    decreases entries.len(),
{
    if entries.len() == 0 {
        Seq::empty()
    } else {
        env_pairs(entries.drop_last()) + match entry_pair(entries.last()) {
            Some(p) => seq![p],
            None => Seq::empty(),
        }
    }
}

/// The value of the first pair whose key is `key`.
pub open spec fn lookup(pairs: Seq<(Seq<char>, Seq<char>)>, key: Seq<char>) -> Option<Seq<char>>
    decreases pairs.len(),
{
    if pairs.len() == 0 {
        None
    } else if pairs[0].0 == key {
        Some(pairs[0].1)
    } else {
        lookup(pairs.skip(1), key)
    }
}

/// The byte views of a vector of byte vectors.
pub open spec fn byte_views(v: Seq<Vec<u8>>) -> Seq<Seq<u8>> {
    v.map_values(|x: Vec<u8>| x@)
}

/// Find the first `c` in `v`.
fn find_char(v: &Vec<char>, c: char) -> (r: Option<usize>)
    ensures
        match first_char(v@, c) {
            Some(i) => r == Some(i as usize),
            None => r is None,
        },
        r matches Some(x) ==> x < v@.len() && v@[x as int] == c && first_char(v@, c) == Some(x as int),
{
    let mut i: usize = 0;
    while i < v.len()
        invariant
            i <= v@.len(),
            forall|j: int| 0 <= j < i ==> v@[j] != c,
        decreases v@.len() - i,
    {
        if v[i] == c {
            proof {
                let k = choose|k: int| 0 <= k < v@.len() && v@[k] == c && forall|j: int| 0 <= j < k ==> v@[j] != c;
                if k > i {
                    assert(v@[i as int] != c);
                }
            }
            return Some(i);
        }
        i += 1;
    }
    None
}

/// The bytes read as text, when they are valid UTF-8.
pub fn decode_str(b: &[u8]) -> (r: Option<&str>)
    ensures
        r is Some <==> valid_utf8(b@),
        r matches Some(s) ==> s@ == decode_utf8(b@),
{
    match str_from_utf8(b) {
        Some(s) => {
            proof {
                vstd::utf8::encode_utf8_decode_utf8(s@);
            }
            Some(s)
        },
        None => None,
    }
}

/// Split one environment entry into its key and value.
pub fn split_entry(b: &[u8]) -> (r: Option<(&str, &str)>)
    ensures
        match entry_pair(b@) {
            Some(p) => r matches Some(x) && x.0@ == p.0 && x.1@ == p.1,
            None => r is None,
        },
{
    let s = match decode_str(b) {
        Some(s) => s,
        None => return None,
    };
    let v = str_chars(s);
    match find_char(&v, '=') {
        None => None,
        Some(i) => {
            let n = v.len();
            let k = s.substring_char(0, i);
            let val = s.substring_char(i + 1, n);
            assert(val@ =~= s@.skip(i + 1));
            assert(k@ =~= s@.take(i as int));
            Some((k, val))
        },
    }
}

impl ProcessEnv {
    /// Record the argument and environment strings.
    pub fn new(argv: Vec<Vec<u8>>, envp: Vec<Vec<u8>>) -> (e: ProcessEnv)
        ensures
            e.argv == argv && e.envp == envp,
    {
        ProcessEnv { argv, envp }
    }

    /// Number of command-line arguments (including the program name).
    pub fn argc(&self) -> (n: usize)
        ensures
            n == self.argv@.len(),
    {
        self.argv.len()
    }

    /// The command-line arguments as raw bytes.
    pub fn args_bytes(&self) -> (v: Vec<&[u8]>)
        ensures
            v@.len() == self.argv@.len(),
            forall|i: int| 0 <= i < v@.len() ==> (#[trigger] v@[i])@ == self.argv@[i]@,
    {
        let mut v: Vec<&[u8]> = Vec::new();
        let mut i: usize = 0;
        while i < self.argv.len()
            invariant
                i <= self.argv@.len(),
                v@.len() == i,
                forall|k: int| 0 <= k < i ==> (#[trigger] v@[k])@ == self.argv@[k]@,
            decreases self.argv@.len() - i,
        {
            v.push(self.argv[i].as_slice());
            i += 1;
        }
        v
    }

    /// The command-line arguments as text; an argument that is not valid
    /// UTF-8 reads as the empty string.
    pub fn args(&self) -> (v: Vec<&str>)
        ensures
            v@.len() == self.argv@.len(),
            forall|i: int| 0 <= i < v@.len() ==> (#[trigger] v@[i])@ == arg_text(self.argv@[i]@),
    {
        let mut v: Vec<&str> = Vec::new();
        let mut i: usize = 0;
        while i < self.argv.len()
            invariant
                i <= self.argv@.len(),
                v@.len() == i,
                forall|k: int| 0 <= k < i ==> (#[trigger] v@[k])@ == arg_text(self.argv@[k]@),
            decreases self.argv@.len() - i,
        {
            let b = self.argv[i].as_slice();
            match decode_str(b) {
                Some(s) => {
                    v.push(s);
                },
                None => {
                    let e: &'static str = "";
                    proof { reveal_strlit(""); }
                    assert(e@ =~= Seq::<char>::empty());
                    v.push(e);
                },
            }
            i += 1;
        }
        v
    }

    /// The `(key, value)` environment pairs; entries that are not valid
    /// UTF-8, or that contain no `=`, are skipped.
    pub fn vars(&self) -> (v: Vec<(&str, &str)>)
        ensures
            v@.len() == env_pairs(byte_views(self.envp@)).len(),
            forall|i: int| 0 <= i < v@.len() ==> (#[trigger] v@[i]).0@ == env_pairs(byte_views(self.envp@))[i].0
                && v@[i].1@ == env_pairs(byte_views(self.envp@))[i].1,
    {
        let mut v: Vec<(&str, &str)> = Vec::new();
        let mut i: usize = 0;
        while i < self.envp.len()
            invariant
                i <= self.envp@.len(),
                v@.len() == env_pairs(byte_views(self.envp@.take(i as int))).len(),
                forall|k: int| 0 <= k < v@.len() ==> (#[trigger] v@[k]).0@ == env_pairs(byte_views(self.envp@.take(i as int)))[k].0
                    && v@[k].1@ == env_pairs(byte_views(self.envp@.take(i as int)))[k].1,
            decreases self.envp@.len() - i,
        {
            let ghost before = byte_views(self.envp@.take(i as int));
            let ghost after = byte_views(self.envp@.take(i as int + 1));
            assert(after.drop_last() =~= before);
            assert(after.last() == self.envp@[i as int]@);
            match split_entry(self.envp[i].as_slice()) {
                Some(p) => {
                    v.push(p);
                },
                None => {},
            }
            i += 1;
        }
        assert(self.envp@.take(self.envp@.len() as int) =~= self.envp@);
        v
    }

    /// The value of the first environment entry whose key is `key`.
    pub fn var(&self, key: &str) -> (r: Option<&str>)
        ensures
            match lookup(env_pairs(byte_views(self.envp@)), key@) {
                Some(val) => r matches Some(x) && x@ == val,
                None => r is None,
            },
    {
        let pairs = self.vars();
        let ghost ps = env_pairs(byte_views(self.envp@));
        assert(ps.skip(0) =~= ps);
        let mut i: usize = 0;
        while i < pairs.len()
            invariant
                i <= pairs@.len(),
                ps == env_pairs(byte_views(self.envp@)),
                pairs@.len() == ps.len(),
                forall|k: int| 0 <= k < pairs@.len() ==> (#[trigger] pairs@[k]).0@ == ps[k].0 && pairs@[k].1@ == ps[k].1,
                lookup(ps, key@) == lookup(ps.skip(i as int), key@),
            decreases pairs@.len() - i,
        {
            let (k, val) = pairs[i];
            assert(ps.skip(i as int)[0] == ps[i as int]);
            assert(ps.skip(i as int).skip(1) =~= ps.skip(i + 1));
            if str_eq(k, key) {
                assert(ps.skip(i as int).len() > 0);
                assert(ps.skip(i as int)[0].0 == key@);
                assert(lookup(ps.skip(i as int), key@) == Some(ps[i as int].1));
                return Some(val);
            }
            i += 1;
        }
        None
    }
}

/// Whether two strings have the same characters.
pub fn str_eq(a: &str, b: &str) -> (r: bool)
    ensures
        r == (a@ == b@),
{
    let va = str_chars(a);
    let vb = str_chars(b);
    if va.len() != vb.len() {
        return false;
    }
    let mut i: usize = 0;
    while i < va.len()
        invariant
            i <= va@.len(),
            va@.len() == vb@.len(),
            va@ == a@ && vb@ == b@,
            forall|j: int| 0 <= j < i ==> va@[j] == vb@[j],
        decreases va@.len() - i,
    {
        if va[i] != vb[i] {
            return false;
        }
        i += 1;
    }
    assert(a@ =~= b@);
    true
}

/// Error from [`var`].
#[derive(Clone, Copy, PartialEq, Eq, Debug, Structural)]
pub enum VarError {
    NotPresent,
    NotUnicode,
}

impl VarError {
    /// The error's description.
    pub fn description(&self) -> (s: &'static str)
        ensures
            s@ == match *self {
                VarError::NotPresent => "environment variable not found"@,
                VarError::NotUnicode => "environment variable was not valid unicode"@,
            },
    {
        match self {
            VarError::NotPresent => "environment variable not found",
            VarError::NotUnicode => "environment variable was not valid unicode",
        }
    }
}

/// The process arguments as owned strings, handed out front to back.
pub struct Args {
    pub items: Vec<String>,
    pub pos: usize,
}

impl Args {
    /// The remaining arguments.
    pub open spec fn remaining(&self) -> Seq<Seq<char>> {
        Seq::new(self.items@.len(), |i: int| self.items@[i]@).skip(self.pos as int)
    }

    /// The next argument, if any.
    pub fn next(&mut self) -> (r: Option<String>)
        requires
            old(self).pos <= old(self).items@.len(),
        ensures
            final(self).pos <= final(self).items@.len(),
            match r {
                Some(s) => old(self).remaining().len() > 0 && s@ == old(self).remaining()[0]
                    && final(self).remaining() == old(self).remaining().skip(1),
                None => old(self).remaining().len() == 0 && final(self).remaining() == old(self).remaining(),
            },
    {
        if self.pos < self.items.len() {
            let s = self.items[self.pos].clone();
            self.pos = self.pos + 1;
            assert(final(self).remaining() =~= old(self).remaining().skip(1));
            Some(s)
        } else {
            None
        }
    }

    /// How many arguments remain.
    pub fn len(&self) -> (n: usize)
        requires
            self.pos <= self.items@.len(),
        ensures
            n == self.remaining().len(),
    {
        self.items.len() - self.pos
    }
}

/// The process arguments (including argv[0]) as owned strings.
pub fn args(env: &ProcessEnv) -> (a: Args)
    ensures
        a.pos == 0,
        a.remaining().len() == env.argv@.len(),
        forall|i: int| 0 <= i < env.argv@.len() ==> #[trigger] a.remaining()[i] == arg_text(env.argv@[i]@),
{
    let texts = env.args();
    let mut items: Vec<String> = Vec::new();
    let mut i: usize = 0;
    while i < texts.len()
        invariant
            i <= texts@.len(),
            items@.len() == i,
            forall|k: int| 0 <= k < i ==> (#[trigger] items@[k])@ == texts@[k]@,
        decreases texts@.len() - i,
    {
        items.push(texts[i].to_owned());
        i += 1;
    }
    let a = Args { items, pos: 0 };
    assert forall|i: int| 0 <= i < env.argv@.len() implies #[trigger] a.remaining()[i] == arg_text(env.argv@[i]@) by {
        assert(a.remaining()[i] == a.items@[i]@);
    }
    a
}

/// Look up an environment variable.
pub fn var(env: &ProcessEnv, key: &str) -> (r: Result<String, VarError>)
    ensures
        match lookup(env_pairs(byte_views(env.envp@)), key@) {
            Some(val) => r matches Ok(s) && s@ == val,
            None => r == Err::<String, VarError>(VarError::NotPresent),
        },
{
    match env.var(key) {
        Some(v) => Ok(v.to_owned()),
        None => Err(VarError::NotPresent),
    }
}

/// The `(key, value)` environment pairs as owned strings.
pub fn vars(env: &ProcessEnv) -> (v: Vec<(String, String)>)
    ensures
        v@.len() == env_pairs(byte_views(env.envp@)).len(),
        forall|i: int| 0 <= i < v@.len() ==> (#[trigger] v@[i]).0@ == env_pairs(byte_views(env.envp@))[i].0
            && v@[i].1@ == env_pairs(byte_views(env.envp@))[i].1,
{
    let pairs = env.vars();
    let mut out: Vec<(String, String)> = Vec::new();
    let mut i: usize = 0;
    while i < pairs.len()
        invariant
            i <= pairs@.len(),
            out@.len() == i,
            forall|k: int| 0 <= k < i ==> (#[trigger] out@[k]).0@ == pairs@[k].0@ && out@[k].1@ == pairs@[k].1@,
        decreases pairs@.len() - i,
    {
        let (k, val) = pairs[i];
        out.push((k.to_owned(), val.to_owned()));
        i += 1;
    }
    out
}

/// The system temporary directory: `$TMPDIR` when set and non-empty, else
/// `/tmp`.
pub fn temp_dir(env: &ProcessEnv) -> (p: PathBuf)
    ensures
        match lookup(env_pairs(byte_views(env.envp@)), "TMPDIR"@) {
            Some(d) => if d.len() > 0 { p@ == d } else { p@ == "/tmp"@ },
            None => p@ == "/tmp"@,
        },
{
    let key: &'static str = "TMPDIR";
    match var(env, key) {
        Ok(d) => {
            if d.as_str().unicode_len() > 0 {
                PathBuf::from_string(d)
            } else {
                PathBuf::from("/tmp")
            }
        },
        Err(_) => PathBuf::from("/tmp"),
    }
}

} // verus!
