//! The computing parts of the filesystem calls: the arguments of `lseek`,
//! the NUL-terminated form of a path, and the records that `getdents64`
//! fills a buffer with.
use vstd::prelude::*;
use vstd::string::StringSliceAdditionalSpecFns;
use crate::io::SeekFrom;
use crate::io_error::{Error, ErrorKind};
use crate::path::{Path, PathBuf, parent_spec, push_spec};
use crate::env::decode_str;
use vstd::utf8::{valid_utf8, decode_utf8};
use crate::text::{trimmed_len, lemma_trimmed_len, last_char_before};

verus! {

/// `lseek`'s `whence` for a seek from the start.
pub const SEEK_SET: usize = 0;
/// `lseek`'s `whence` for a seek from the current position.
pub const SEEK_CUR: usize = 1;
/// `lseek`'s `whence` for a seek from the end.
pub const SEEK_END: usize = 2;

/// The `whence` and offset that `lseek` takes for a seek; an offset from
/// the start is passed on as the same 64 bits read as signed.
pub fn seek_args(pos: SeekFrom) -> (r: (usize, i64))
    ensures
        match pos {
            SeekFrom::Start(n) => r.0 == SEEK_SET && r.1 == n as i64,
            SeekFrom::Current(n) => r.0 == SEEK_CUR && r.1 == n,
            SeekFrom::End(n) => r.0 == SEEK_END && r.1 == n,
        },
{
    match pos {
        SeekFrom::Start(n) => (SEEK_SET, n as i64),
        SeekFrom::Current(n) => (SEEK_CUR, n),
        SeekFrom::End(n) => (SEEK_END, n),
    }
}

/// The bytes of a path followed by a terminating NUL; a path with a NUL
/// inside it has no such form and is `InvalidInput`.
pub fn c_path(p: &Path) -> (r: Result<Vec<u8>, Error>)
    ensures
        match r {
            Ok(v) => v@ == p.inner.spec_bytes().push(0u8) && !p.inner.spec_bytes().contains(0u8),
            Err(e) => p.inner.spec_bytes().contains(0u8) && e.kind_spec() == ErrorKind::InvalidInput,
        },
{
    let b = p.inner.as_bytes();
    let mut v: Vec<u8> = Vec::new();
    let mut i: usize = 0;
    while i < b.len()
        invariant
            i <= b@.len(),
            b@ == p.inner.spec_bytes(),
            v@ == b@.take(i as int),
            forall|j: int| 0 <= j < i ==> #[trigger] b@[j] != 0u8,
        decreases b@.len() - i,
    {
        if b[i] == 0 {
            assert(b@[i as int] == 0u8);
            return Err(Error::from_kind(ErrorKind::InvalidInput));
        }
        v.push(b[i]);
        i += 1;
        assert(v@ =~= b@.take(i as int));
    }
    assert(b@.take(i as int) =~= b@);
    assert(!b@.contains(0u8)) by {
        if b@.contains(0u8) {
            let j = choose|j: int| 0 <= j < b@.len() && b@[j] == 0u8;
            assert(b@[j] != 0u8);
        }
    }
    v.push(0u8);
    Ok(v)
}

/// A directory entry read from a `getdents64` buffer.
#[derive(Debug)]
pub struct DirEntryRaw {
    /// The entry's name, without its terminating NUL.
    pub name: Vec<u8>,
    /// The entry's `d_type`.
    pub kind: u8,
}

/// The `d_type` of a directory.
pub const DT_DIR: u8 = 4;

/// Where the fixed part of a record ends and its name begins
/// (`d_ino`, `d_off`, `d_reclen`, `d_type`: 8 + 8 + 2 + 1 bytes).
pub const DIRENT_NAME_OFFSET: usize = 19;

/// The record length stored at `off` (little-endian `d_reclen`).
pub open spec fn reclen_at(buf: Seq<u8>, off: int) -> int {
    buf[off + 16] as int + 256 * (buf[off + 17] as int)
}

/// The index of the first NUL in `buf[from..to]`, or `to` when there is
/// none.
pub open spec fn nul_from(buf: Seq<u8>, from: int, to: int) -> int
    decreases to - from,
{
    if from >= to {
        to
    } else if buf[from] == 0u8 {
        from
    } else {
        nul_from(buf, from + 1, to)
    }
}

/// Whether a name is `.` or `..`.
pub open spec fn is_dot_name(n: Seq<u8>) -> bool {
    n == seq![46u8] || n == seq![46u8, 46u8]
}

/// The entries (name and type) in the first `n` bytes of `buf` from offset
/// `off` on, leaving out `.` and `..`. Reading stops at a record that does
/// not fit in those bytes or is too short to hold its own header.
pub open spec fn dirents_spec(buf: Seq<u8>, off: int, n: int) -> Seq<(Seq<u8>, u8)>
    decreases n - off,
{
    if off < 0 || off + DIRENT_NAME_OFFSET > n || n > buf.len() {
        Seq::empty()
    } else {
        let len = reclen_at(buf, off);
        if len < DIRENT_NAME_OFFSET || off + len > n {
            Seq::empty()
        } else {
            let name = buf.subrange(off + DIRENT_NAME_OFFSET, nul_from(buf, off + DIRENT_NAME_OFFSET, off + len));
            let rest = dirents_spec(buf, off + len, n);
            if is_dot_name(name) {
                rest
            } else {
                seq![(name, buf[off + 18])] + rest
            }
        }
    }
}

/// The name held by the record at `off` (up to its NUL).
pub open spec fn record_name(buf: Seq<u8>, off: int) -> Seq<u8> {
    buf.subrange(off + DIRENT_NAME_OFFSET, nul_from(buf, off + DIRENT_NAME_OFFSET, off + reclen_at(buf, off)))
}

/// Only `.` and `..` are left out of a listing: the first record, when it
/// holds any other name (a hidden one such as `.gitignore` included), is
/// the first entry, with its type, followed by the entries of the records
/// after it; a `.` or `..` record adds nothing.
pub proof fn lemma_listing_keeps_all_but_dots(buf: Seq<u8>, off: int, n: int)
    requires
        0 <= off,
        off + DIRENT_NAME_OFFSET <= n <= buf.len(),
        DIRENT_NAME_OFFSET <= reclen_at(buf, off),
        off + reclen_at(buf, off) <= n,
    ensures
        ({
            let name = record_name(buf, off);
            let rest = dirents_spec(buf, off + reclen_at(buf, off), n);
            if name == seq![46u8] || name == seq![46u8, 46u8] {
                dirents_spec(buf, off, n) == rest
            } else {
                &&& dirents_spec(buf, off, n).len() == rest.len() + 1
                &&& dirents_spec(buf, off, n)[0] == (name, buf[off + 18])
                &&& dirents_spec(buf, off, n).skip(1) == rest
            }
        }),
{
    let name = record_name(buf, off);
    let rest = dirents_spec(buf, off + reclen_at(buf, off), n);
    if !(name == seq![46u8] || name == seq![46u8, 46u8]) {
        assert((seq![(name, buf[off + 18])] + rest).skip(1) =~= rest);
    }
}

/// No listing holds `.` or `..`.
pub proof fn lemma_listing_has_no_dots(buf: Seq<u8>, off: int, n: int)
    ensures
        forall|i: int| 0 <= i < dirents_spec(buf, off, n).len() ==> (#[trigger] dirents_spec(buf, off, n)[i]).0
            != seq![46u8] && dirents_spec(buf, off, n)[i].0 != seq![46u8, 46u8],
    decreases n - off,
{
    if !(off < 0 || off + DIRENT_NAME_OFFSET > n || n > buf.len()) {
        let len = reclen_at(buf, off);
        if !(len < DIRENT_NAME_OFFSET || off + len > n) {
            lemma_listing_has_no_dots(buf, off + len, n);
            let name = record_name(buf, off);
            let rest = dirents_spec(buf, off + len, n);
            if !is_dot_name(name) {
                let l = seq![(name, buf[off + 18])] + rest;
                assert forall|i: int| 1 <= i < l.len() implies l[i] == rest[i - 1] by {}
            }
        }
    }
}

/// The entries of a record stream as (name, type) pairs.
pub open spec fn entries_view(v: Seq<DirEntryRaw>) -> Seq<(Seq<u8>, u8)> {
    Seq::new(v.len(), |i: int| (v[i].name@, v[i].kind))
}

/// Whether a byte string is `.` or `..`.
fn dot_name(n: &Vec<u8>) -> (b: bool)
    ensures
        b == is_dot_name(n@),
{
    if n.len() == 1 {
        let b = n[0] == 46u8;
        assert(b ==> n@ =~= seq![46u8]);
        b
    } else if n.len() == 2 {
        let b = n[0] == 46u8 && n[1] == 46u8;
        assert(b ==> n@ =~= seq![46u8, 46u8]);
        b
    } else {
        false
    }
}

/// The entries in the first `n` bytes that `getdents64` filled `buf` with,
/// in order, without `.` and `..`.
pub fn parse_dirents(buf: &[u8], n: usize) -> (v: Vec<DirEntryRaw>)
    requires
        n <= buf@.len(),
    ensures
        entries_view(v@) == dirents_spec(buf@, 0, n as int),
{
    let mut out: Vec<DirEntryRaw> = Vec::new();
    let mut off: usize = 0;
    let ghost b = buf@;
    while off < n && n - off >= DIRENT_NAME_OFFSET
        invariant
            n <= b.len(),
            b == buf@,
            off <= n,
            entries_view(out@) + dirents_spec(b, off as int, n as int) == dirents_spec(b, 0, n as int),
        decreases n - off,
    {
        let len: usize = (buf[off + 16] as usize) + 256 * (buf[off + 17] as usize);
        assert(len == reclen_at(b, off as int));
        if len < DIRENT_NAME_OFFSET || len > n - off {
            proof {
                assert(dirents_spec(b, off as int, n as int) =~= Seq::empty());
                assert(entries_view(out@) + Seq::<(Seq<u8>, u8)>::empty() =~= entries_view(out@));
            }
            return out;
        }
        let start = off + DIRENT_NAME_OFFSET;
        let end = off + len;
        let mut k = start;
        while k < end && buf[k] != 0
            invariant
                start <= k <= end,
                end <= n <= b.len(),
                b == buf@,
                nul_from(b, start as int, end as int) == nul_from(b, k as int, end as int),
            decreases end - k,
        {
            k += 1;
        }
        let stop = k;
        let mut name: Vec<u8> = Vec::new();
        let mut j = start;
        while j < stop
            invariant
                start <= j <= stop,
                stop <= b.len(),
                b == buf@,
                name@ == b.subrange(start as int, j as int),
            decreases stop - j,
        {
            name.push(buf[j]);
            j += 1;
            assert(name@ =~= b.subrange(start as int, j as int));
        }
        let ghost rest = dirents_spec(b, end as int, n as int);
        let kind = buf[off + 18];
        let ghost before = entries_view(out@);
        if !dot_name(&name) {
            out.push(DirEntryRaw { name, kind });
            proof {
                assert(entries_view(out@) =~= before + seq![(b.subrange(start as int, stop as int), kind)]);
            }
        }
        off = end;
    }
    proof {
        assert(dirents_spec(b, off as int, n as int) =~= Seq::empty());
        assert(entries_view(out@) + Seq::<(Seq<u8>, u8)>::empty() =~= entries_view(out@));
    }
    out
}


/// When `c` occurs below `end`, there is a last such occurrence.
proof fn lemma_last_char_exists(s: Seq<char>, end: int, c: char)
    requires
        exists|i: int| 0 <= i < end && s[i] == c,
    ensures
        exists|i: int| 0 <= i < end && s[i] == c && forall|j: int| i < j < end ==> s[j] != c,
    decreases end,
{
    if s[end - 1] == c {
        assert(0 <= end - 1 < end && s[end - 1] == c && forall|j: int| end - 1 < j < end ==> s[j] != c);
    } else {
        let w = choose|i: int| 0 <= i < end && s[i] == c;
        assert(0 <= w < end - 1 && s[w] == c);
        lemma_last_char_exists(s, end - 1, c);
        let k = choose|i: int| 0 <= i < end - 1 && s[i] == c && forall|j: int| i < j < end - 1 ==> s[j] != c;
        assert(0 <= k < end && s[k] == c && forall|j: int| k < j < end ==> s[j] != c);
    }
}

/// A path's parent is shorter than the path.
pub proof fn lemma_parent_shorter(s: Seq<char>)
    ensures
        parent_spec(s) matches Some(p) ==> p.len() < s.len(),
{
    let t = trimmed_len(s, '/');
    lemma_trimmed_len(s, '/');
    if exists|i: int| 0 <= i < t && s[i] == '/' {
        lemma_last_char_exists(s, t, '/');
        let i = choose|i: int| 0 <= i < t && s[i] == '/' && forall|j: int| i < j < t ==> s[j] != '/';
        assert(last_char_before(s, t, '/') == Some(i));
        if i == 0 {
            assert(t >= 2);
        }
    }
}

/// What `create_dir_all` does next.
#[derive(Debug)]
pub enum DirStep {
    /// Make this directory.
    Mkdir(String),
    /// Stop with this result.
    Finish(Result<(), Error>),
}

/// The directories `create_dir_all` is still working on, outermost first;
/// each is the parent of the one before it. The last one is being made,
/// for the second time when `retrying` holds (after its parents were made).
#[derive(Debug)]
pub struct CreateDirAll {
    pub pending: Vec<String>,
    pub retrying: bool,
}

/// The pending directories as character sequences.
pub open spec fn pending_view(v: Seq<String>) -> Seq<Seq<char>> {
    Seq::new(v.len(), |i: int| v[i]@)
}

/// Whether a `mkdir` result lets `create_dir_all` go on: it made the
/// directory, or the directory was already there.
pub open spec fn mkdir_ok(r: Result<(), Error>) -> bool {
    match r {
        Ok(()) => true,
        Err(e) => e.kind_spec() == ErrorKind::AlreadyExists,
    }
}

/// The parent of a path, when it has one that is not empty.
pub open spec fn nonempty_parent(s: Seq<char>) -> Option<Seq<char>> {
    match parent_spec(s) {
        Some(p) => if p.len() > 0 { Some(p) } else { None },
        None => None,
    }
}

impl CreateDirAll {
    /// Begin making `p` and its missing parents: first try `p` itself.
    pub fn start(p: &Path) -> (r: (CreateDirAll, DirStep))
        ensures
            pending_view(r.0.pending@) == seq![p@],
            !r.0.retrying,
            r.1 matches DirStep::Mkdir(q) && q@ == p@,
    {
        let mut pending: Vec<String> = Vec::new();
        pending.push(p.inner.to_owned());
        let first = p.inner.to_owned();
        assert(pending_view(pending@) =~= seq![p@]);
        (CreateDirAll { pending, retrying: false }, DirStep::Mkdir(first))
    }

    /// Take the result of the last `mkdir` (of the last pending directory).
    /// A made or existing directory is done, and the one waiting on it is
    /// tried again; the first failure of a directory with a non-empty
    /// parent moves on to the parent; any other failure stops everything.
    pub fn step(&mut self, r: Result<(), Error>) -> (s: DirStep)
        requires
            old(self).pending@.len() > 0,
        ensures
            ({
                let old_p = pending_view(old(self).pending@);
                let top = old_p.last();
                let new_p = pending_view(final(self).pending@);
                if mkdir_ok(r) {
                    &&& new_p == old_p.drop_last()
                    &&& if new_p.len() == 0 {
                        s matches DirStep::Finish(Ok(()))
                    } else {
                        final(self).retrying && (s matches DirStep::Mkdir(q) && q@ == new_p.last())
                    }
                } else if !old(self).retrying && nonempty_parent(top) is Some {
                    let par = nonempty_parent(top)->0;
                    &&& new_p == old_p.push(par)
                    &&& !final(self).retrying
                    &&& s matches DirStep::Mkdir(q) && q@ == par
                    &&& par.len() < top.len()
                } else {
                    s == DirStep::Finish(r)
                }
            }),
    {
        let ghost old_p = pending_view(self.pending@);
        let ok = match &r {
            Ok(()) => true,
            Err(e) => e.kind() == ErrorKind::AlreadyExists,
        };
        if ok {
            self.pending.pop();
            assert(pending_view(self.pending@) =~= old_p.drop_last());
            let n = self.pending.len();
            if n == 0 {
                return DirStep::Finish(Ok(()));
            }
            self.retrying = true;
            let next = self.pending[n - 1].as_str().to_owned();
            return DirStep::Mkdir(next);
        }
        if self.retrying {
            return DirStep::Finish(r);
        }
        let n = self.pending.len();
        let top = self.pending[n - 1].as_str();
        let tp = Path::new(top);
        match tp.parent() {
            Some(par) => {
                if par.is_empty() {
                    return DirStep::Finish(r);
                }
                proof { lemma_parent_shorter(top@); }
                let a = par.inner.to_owned();
                let b = par.inner.to_owned();
                let ghost pv = par@;
                self.pending.push(a);
                assert(pending_view(self.pending@) =~= old_p.push(pv));
                DirStep::Mkdir(b)
            },
            None => DirStep::Finish(r),
        }
    }
}

/// What `remove_dir_all` does next.
#[derive(Debug)]
pub enum RemoveStep {
    /// Remove this file (anything that is not a directory).
    Unlink(PathBuf),
    /// Remove this directory and everything in it.
    Descend(PathBuf),
    /// Read the next batch of directory entries.
    ReadMore,
    /// The directory is empty: remove it.
    Rmdir,
    /// Stop with this error.
    Fail(Error),
}

/// The directory `remove_dir_all` is emptying, the batch of entries read
/// last, and the index of the next entry to remove.
#[derive(Debug)]
pub struct RemoveDirAll {
    pub dir: PathBuf,
    pub entries: Vec<DirEntryRaw>,
    pub next: usize,
}

/// An entry's name as text: its bytes read as UTF-8, or the empty name
/// when they are not valid UTF-8.
pub open spec fn name_text(n: Seq<u8>) -> Seq<char> {
    if valid_utf8(n) { decode_utf8(n) } else { Seq::empty() }
}

/// The step that removes entry `e` (name and type) of directory `dir`: a
/// directory is descended into, anything else unlinked, by the path of the
/// directory joined with the entry's name.
pub open spec fn entry_step(dir: Seq<char>, e: (Seq<u8>, u8), s: RemoveStep) -> bool {
    let child = push_spec(dir, name_text(e.0));
    if e.1 == DT_DIR {
        s matches RemoveStep::Descend(p) && p@ == child
    } else {
        s matches RemoveStep::Unlink(p) && p@ == child
    }
}

impl RemoveDirAll {
    /// Begin emptying `p`, with no entries read yet.
    pub fn start(p: &Path) -> (r: RemoveDirAll)
        ensures
            r.dir@ == p@,
            r.entries@.len() == 0,
            r.next == 0,
    {
        RemoveDirAll { dir: p.to_path_buf(), entries: Vec::new(), next: 0 }
    }

    /// The step for the next entry of the batch, or `ReadMore` at its end.
    fn advance(&mut self) -> (s: RemoveStep)
        ensures
            final(self).dir == old(self).dir,
            final(self).entries == old(self).entries,
            old(self).next < old(self).entries@.len() ==> final(self).next == old(self).next + 1
                && entry_step(old(self).dir@, entries_view(old(self).entries@)[old(self).next as int], s),
            old(self).next >= old(self).entries@.len() ==> s is ReadMore && final(self).next == old(self).next,
    {
        if self.next >= self.entries.len() {
            return RemoveStep::ReadMore;
        }
        let e = &self.entries[self.next];
        let name = match decode_str(e.name.as_slice()) {
            Some(t) => t,
            None => {
                proof { reveal_strlit(""); }
                ""
            },
        };
        let child = self.dir.as_path().join(name);
        let is_dir = e.kind == DT_DIR;
        self.next = self.next + 1;
        if is_dir {
            RemoveStep::Descend(child)
        } else {
            RemoveStep::Unlink(child)
        }
    }

    /// Take a batch of `n` bytes that `getdents64` put into `buf`: none
    /// left means the directory is empty; more than the buffer holds is
    /// `InvalidData`; otherwise the batch's entries (without `.` and `..`)
    /// are removed in order, starting with the first.
    pub fn batch(&mut self, buf: &[u8], n: usize) -> (s: RemoveStep)
        ensures
            final(self).dir == old(self).dir,
            n == 0 ==> s is Rmdir,
            n > buf@.len() ==> (s matches RemoveStep::Fail(e) && e.kind_spec() == ErrorKind::InvalidData),
            0 < n <= buf@.len() ==> ({
                let batch = dirents_spec(buf@, 0, n as int);
                &&& entries_view(final(self).entries@) == batch
                &&& if batch.len() == 0 {
                    s is ReadMore && final(self).next == 0
                } else {
                    final(self).next == 1 && entry_step(old(self).dir@, batch[0], s)
                }
            }),
    {
        if n == 0 {
            return RemoveStep::Rmdir;
        }
        if n > buf.len() {
            return RemoveStep::Fail(Error::from_kind(ErrorKind::InvalidData));
        }
        self.entries = parse_dirents(buf, n);
        self.next = 0;
        self.advance()
    }

    /// Take the result of removing the last entry: an error stops
    /// everything; otherwise the next entry is removed, or the next batch
    /// read.
    pub fn step(&mut self, r: Result<(), Error>) -> (s: RemoveStep)
        ensures
            final(self).dir == old(self).dir,
            final(self).entries == old(self).entries,
            r matches Err(e) ==> s == RemoveStep::Fail(e) && final(self).next == old(self).next,
            r is Ok && old(self).next < old(self).entries@.len() ==> final(self).next == old(self).next + 1
                && entry_step(old(self).dir@, entries_view(old(self).entries@)[old(self).next as int], s),
            r is Ok && old(self).next >= old(self).entries@.len() ==> s is ReadMore,
    {
        match r {
            Err(e) => RemoveStep::Fail(e),
            Ok(()) => self.advance(),
        }
    }
}

} // verus!
