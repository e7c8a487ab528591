//! Reading and writing byte streams: the `Read`, `Write` and `Seek` traits
//! with their provided methods, `copy`, the in-memory `Cursor`, and the
//! buffering adapters `BufReader` and `BufWriter`.
//!
//! Every reader records the bytes it has handed out (`delivered`) and every
//! writer the bytes it has taken in (`accepted`); a `budget` bounds how many
//! more reads or writes can make progress or be interrupted, which is what
//! makes the retrying loops terminate. Readers also record whether they have
//! reported the end of the stream (`at_end`) and the error of their latest
//! failed read (`reported`), and, where the whole stream is settled in
//! advance, that stream (`source`); writers record their latest error
//! (`write_reported`), whether a write took in nothing (`stalled`) and
//! whether they take in everything (`accepts_all`). The provided methods
//! then say where each of their results comes from.
use vstd::prelude::*;
use vstd::utf8::{valid_utf8, decode_utf8};
use vstd::string::StringExecFns;
use crate::env::decode_str;
use crate::io_error::{Error, ErrorKind};

verus! {

/// Where a seek is measured from.
#[derive(Clone, Copy, PartialEq, Eq, Debug, Structural)]
pub enum SeekFrom {
    Start(u64),
    End(i64),
    Current(i64),
}

/// A source of bytes.
///
/// The ghost functions describe a reader for the proofs; an implementation
/// written outside verified code keeps their defaults, and the provided
/// methods then rely on its `read` keeping the contract stated here.
pub trait Read {
    /// The bytes this reader has handed out so far.
    closed spec fn delivered(&self) -> Seq<u8> {
        Seq::empty()
    }

    /// A bound on the reads that can still deliver bytes or be interrupted.
    closed spec fn budget(&self) -> nat {
        0
    }

    /// The reader's own invariant.
    closed spec fn inv(&self) -> bool {
        true
    }

    /// Whether the reader has reported the end of its stream: a read into a
    /// non-empty buffer handed out nothing.
    closed spec fn at_end(&self) -> bool {
        false
    }

    /// The error of the latest read that failed, if any has; a read that
    /// succeeds leaves it as it was.
    closed spec fn reported(&self) -> Option<Error> {
        None
    }

    /// The whole stream, where it is settled in advance (as for a reader
    /// over bytes in memory): what has been handed out, followed by what is
    /// still to come. Such a reader never fails.
    closed spec fn source(&self) -> Option<Seq<u8>> {
        None
    }

    /// Read at most `buf.len()` bytes into the front of `buf`; `Ok(0)` means
    /// the end of the stream (or an empty `buf`).
    fn read(&mut self, buf: &mut [u8]) -> (r: Result<usize, Error>)
        requires
            old(self).inv(),
        ensures
            final(self).inv(),
            final(buf)@.len() == old(buf)@.len(),
            final(self).source() == old(self).source(),
            within(final(self).source(), final(self).delivered()),
            old(self).source() is Some ==> r is Ok,
            match r {
                Ok(n) => n <= old(buf)@.len() && final(self).delivered() == old(self).delivered()
                    + final(buf)@.take(n as int) && final(self).budget() <= old(self).budget() && (n > 0
                    ==> final(self).budget() < old(self).budget()) && (n == 0 && old(buf)@.len() > 0
                    ==> final(self).at_end() && all_of(final(self).source(), final(self).delivered()))
                    && final(self).reported() == old(self).reported(),
                Err(e) => final(self).delivered() == old(self).delivered() && final(self).budget()
                    <= old(self).budget() && (e.kind_spec() == ErrorKind::Interrupted
                    ==> final(self).budget() < old(self).budget()) && final(self).reported() == Some(e),
            },
    ;

    /// Fill `buf` completely, retrying interrupted reads; the end of the
    /// stream before that is `UnexpectedEof`.
    fn read_exact(&mut self, buf: &mut [u8]) -> (r: Result<(), Error>)
        requires
            old(self).inv(),
        ensures
            final(self).inv(),
            final(buf)@.len() == old(buf)@.len(),
            r is Ok ==> final(self).delivered() == old(self).delivered() + final(buf)@,
            r is Err ==> old(self).delivered().is_prefix_of(final(self).delivered())
                && final(self).delivered().len() < old(self).delivered().len() + old(buf)@.len(),
            old(buf)@.len() == 0 ==> r is Ok,
            r matches Err(e) ==> (e.kind_spec() == ErrorKind::UnexpectedEof && final(self).at_end()
                && all_of(final(self).source(), final(self).delivered()))
                || (e.kind_spec() != ErrorKind::Interrupted && final(self).reported() == Some(e)),
            final(self).source() == old(self).source(),
            within(old(self).source(), old(self).delivered()) ==> within(final(self).source(), final(self).delivered()),
    {
        let len = buf.len();
        let mut filled: usize = 0;
        let ghost d0 = self.delivered();
        while filled < len
            invariant
                self.inv(),
                filled <= len,
                buf@.len() == len,
                len == old(buf)@.len(),
                self.delivered() == d0 + buf@.take(filled as int),
                d0 == old(self).delivered(),
                self.source() == old(self).source(),
                within(old(self).source(), old(self).delivered()) ==> within(self.source(), self.delivered()),
            decreases self.budget(), len - filled,
        {
            let want = len - filled;
            let mut tmp: Vec<u8> = vec![0u8; want];
            let ghost before = self.delivered();
            let ghost b0 = self.budget();
            match self.read(tmp.as_mut_slice()) {
                Ok(0) => {
                    proof { assert(d0.is_prefix_of(self.delivered())) by { lemma_prefix_append(d0, buf@.take(filled as int)); } }
                    return Err(Error::from_kind(ErrorKind::UnexpectedEof));
                },
                Ok(n) => {
                    let mut k: usize = 0;
                    while k < n
                        invariant
                            k <= n,
                            n <= tmp@.len(),
                            filled + tmp@.len() == len,
                            buf@.len() == len,
                            buf@.take(filled as int) == old_take(before, d0),
                            forall|j: int| 0 <= j < k ==> #[trigger] buf@[filled + j] == tmp@[j],
                            forall|j: int| 0 <= j < filled ==> buf@[j] == old_take(before, d0)[j],
                        decreases n - k,
                    {
                        buf[filled + k] = tmp[k];
                        k += 1;
                    }
                    proof {
                        assert(buf@.take(filled + n) =~= buf@.take(filled as int) + tmp@.take(n as int)) by {
                            assert forall|j: int| 0 <= j < filled + n implies buf@.take(filled + n)[j] == (buf@.take(filled as int) + tmp@.take(n as int))[j] by {
                                if j < filled {
                                    assert(buf@[j] == old_take(before, d0)[j]);
                                } else {
                                    assert(buf@[filled + (j - filled)] == tmp@[j - filled]);
                                }
                            }
                        }
                    }
                    filled = filled + n;
                },
                Err(e) => {
                    if e.kind() == ErrorKind::Interrupted {
                    } else {
                        proof { lemma_prefix_append(d0, buf@.take(filled as int)); }
                        return Err(e);
                    }
                },
            }
        }
        assert(buf@.take(len as int) =~= buf@);
        Ok(())
    }

    /// Append everything up to the end of the stream to `buf`, retrying
    /// interrupted reads; the count of bytes read.
    fn read_to_end(&mut self, buf: &mut Vec<u8>) -> (r: Result<usize, Error>)
        requires
            old(self).inv(),
        ensures
            final(self).inv(),
            old(buf)@.is_prefix_of(final(buf)@),
            final(self).delivered() == old(self).delivered() + final(buf)@.skip(old(buf)@.len() as int),
            r matches Ok(n) ==> n == final(buf)@.len() - old(buf)@.len() && final(self).at_end()
                && all_of(final(self).source(), final(self).delivered()),
            r matches Err(e) ==> e.kind_spec() != ErrorKind::Interrupted && final(self).reported() == Some(e),
            old(self).source() is Some ==> r is Ok,
            final(self).source() == old(self).source(),
            within(old(self).source(), old(self).delivered()) ==> within(final(self).source(), final(self).delivered()),
    {
        let start = buf.len();
        let ghost d0 = self.delivered();
        loop
            invariant
                self.inv(),
                start == old(buf)@.len(),
                old(buf)@.is_prefix_of(buf@),
                self.delivered() == d0 + buf@.skip(start as int),
                d0 == old(self).delivered(),
                self.source() == old(self).source(),
                within(old(self).source(), old(self).delivered()) ==> within(self.source(), self.delivered()),
            ensures
                self.at_end(),
                all_of(self.source(), self.delivered()),
            decreases self.budget(),
        {
            let mut tmp = [0u8; 8192];
            let ghost before = buf@;
            match self.read(&mut tmp) {
                Ok(0) => {
                    break;
                },
                Ok(n) => {
                    let mut k: usize = 0;
                    while k < n
                        invariant
                            k <= n,
                            n <= 8192,
                            tmp@.len() == 8192,
                            buf@ == before + tmp@.take(k as int),
                        decreases n - k,
                    {
                        buf.push(tmp[k]);
                        k += 1;
                        assert(buf@ =~= before + tmp@.take(k as int));
                    }
                    proof {
                        assert(buf@.skip(start as int) =~= before.skip(start as int) + tmp@.take(n as int));
                        assert(old(buf)@.is_prefix_of(buf@)) by {
                            assert forall|j: int| 0 <= j < old(buf)@.len() implies old(buf)@[j] == buf@[j] by {
                                assert(before[j] == old(buf)@[j]);
                            }
                        }
                    }
                },
                Err(e) => {
                    if e.kind() == ErrorKind::Interrupted {
                    } else {
                        return Err(e);
                    }
                },
            }
        }
        Ok(buf.len() - start)
    }

    /// Read to the end and append the text to `buf`; bytes that are not
    /// valid UTF-8 are `InvalidData` and leave `buf` unchanged.
    fn read_to_string(&mut self, buf: &mut String) -> (r: Result<usize, Error>)
        requires
            old(self).inv(),
        ensures
            final(self).inv(),
            match r {
                Ok(n) => {
                    let got = final(self).delivered().skip(old(self).delivered().len() as int);
                    &&& valid_utf8(got)
                    &&& n == got.len()
                    &&& final(buf)@ == old(buf)@ + decode_utf8(got)
                    &&& final(self).at_end()
                    &&& all_of(final(self).source(), final(self).delivered())
                },
                Err(e) => {
                    let got = final(self).delivered().skip(old(self).delivered().len() as int);
                    &&& final(buf)@ == old(buf)@
                    &&& (e.kind_spec() == ErrorKind::InvalidData && !valid_utf8(got) && final(self).at_end()
                        && all_of(final(self).source(), final(self).delivered()))
                        || (e.kind_spec() != ErrorKind::Interrupted && final(self).reported() == Some(e))
                },
            },
            old(self).source() is Some ==> (r is Ok <==> valid_utf8(
                final(self).delivered().skip(old(self).delivered().len() as int),
            )),
            final(self).source() == old(self).source(),
            within(old(self).source(), old(self).delivered()) ==> within(final(self).source(), final(self).delivered()),
    {
        let mut bytes: Vec<u8> = Vec::new();
        let n = match self.read_to_end(&mut bytes) {
            Ok(n) => n,
            Err(e) => return Err(e),
        };
        assert(bytes@.skip(0) =~= bytes@);
        assert(self.delivered().skip(old(self).delivered().len() as int) =~= bytes@);
        match decode_str(bytes.as_slice()) {
            Some(s) => {
                buf.append(s);
                Ok(n)
            },
            None => Err(Error::from_kind(ErrorKind::InvalidData)),
        }
    }

    /// The reader itself, borrowed.
    fn by_ref(&mut self) -> (r: &mut Self)
        where Self: Sized
        ensures
            *r == *old(self),
            *final(self) == *final(r),
    {
        self
    }
}

/// The bytes handed out lie within the stream, where it is settled.
pub open spec fn within(source: Option<Seq<u8>>, delivered: Seq<u8>) -> bool {
    source matches Some(s) ==> delivered.is_prefix_of(s)
}

/// All of the stream has been handed out, where it is settled.
pub open spec fn all_of(source: Option<Seq<u8>>, delivered: Seq<u8>) -> bool {
    source matches Some(s) ==> delivered == s
}

/// What lies within the stream together with more bytes lies within it
/// alone.
pub proof fn lemma_within_prefix(source: Option<Seq<u8>>, a: Seq<u8>, b: Seq<u8>)
    requires
        within(source, a + b),
    ensures
        within(source, a),
{
    if let Some(s) = source {
        assert forall|j: int| 0 <= j < a.len() implies a[j] == s[j] by {
            assert((a + b)[j] == a[j]);
        }
    }
}

/// The first part of a delivered stream, as seen before a read.
pub open spec fn old_take(before: Seq<u8>, d0: Seq<u8>) -> Seq<u8> {
    before.skip(d0.len() as int)
}

/// A sequence is a prefix of itself extended.
pub proof fn lemma_prefix_append(a: Seq<u8>, b: Seq<u8>)
    ensures
        a.is_prefix_of(a + b),
{
    assert((a + b).take(a.len() as int) =~= a);
}

/// A sink of bytes.
///
/// As for `Read`, an implementation written outside verified code keeps
/// the defaults of the ghost functions.
pub trait Write {
    /// The bytes this writer has taken in so far.
    closed spec fn accepted(&self) -> Seq<u8> {
        Seq::empty()
    }

    /// A bound on the writes that can still be interrupted.
    closed spec fn write_budget(&self) -> nat {
        0
    }

    /// The writer's own invariant.
    closed spec fn write_inv(&self) -> bool {
        true
    }

    /// The error of the latest write or flush that failed, if any has; one
    /// that succeeds leaves it as it was.
    closed spec fn write_reported(&self) -> Option<Error> {
        None
    }

    /// Whether a write has taken in nothing of a non-empty buffer.
    closed spec fn stalled(&self) -> bool {
        false
    }

    /// Whether this writer takes in every buffer whole and flushes without
    /// fail (as a writer into memory that can always grow does).
    closed spec fn accepts_all(&self) -> bool {
        false
    }

    /// Take in at most `buf.len()` bytes from the front of `buf`. An
    /// interrupted write takes in nothing; after another error, what the
    /// writer holds is left open (a buffering writer may have passed part
    /// of its buffer on).
    fn write(&mut self, buf: &[u8]) -> (r: Result<usize, Error>)
        requires
            old(self).write_inv(),
        ensures
            final(self).write_inv(),
            old(self).stalled() ==> final(self).stalled(),
            old(self).accepts_all() ==> r == Ok::<usize, Error>(buf@.len() as usize) && final(self).accepts_all(),
            match r {
                Ok(n) => n <= buf@.len() && final(self).accepted() == old(self).accepted() + buf@.take(n as int)
                    && final(self).write_budget() <= old(self).write_budget() && (n == 0 && buf@.len() > 0
                    ==> final(self).stalled()) && final(self).write_reported() == old(self).write_reported(),
                Err(e) => final(self).write_budget() <= old(self).write_budget() && (e.kind_spec()
                    == ErrorKind::Interrupted ==> final(self).accepted() == old(self).accepted()
                    && final(self).write_budget() < old(self).write_budget()) && final(self).write_reported() == Some(e),
            },
    ;

    /// Push out anything buffered.
    fn flush(&mut self) -> (r: Result<(), Error>)
        requires
            old(self).write_inv(),
        ensures
            final(self).write_inv(),
            old(self).stalled() ==> final(self).stalled(),
            old(self).accepts_all() ==> r is Ok && final(self).accepts_all(),
            r is Ok ==> final(self).accepted() == old(self).accepted() && final(self).write_reported()
                == old(self).write_reported(),
            r matches Err(e) ==> final(self).write_reported() == Some(e),
    ;

    /// Take in all of `buf`, retrying interrupted writes; a write that takes
    /// nothing is `WriteZero`.
    fn write_all(&mut self, buf: &[u8]) -> (r: Result<(), Error>)
        requires
            old(self).write_inv(),
        ensures
            final(self).write_inv(),
            r is Ok ==> final(self).accepted() == old(self).accepted() + buf@,
            r matches Err(e) ==> e.kind_spec() != ErrorKind::Interrupted && ((e.kind_spec() == ErrorKind::WriteZero
                && final(self).stalled()) || final(self).write_reported() == Some(e)),
            final(self).write_budget() <= old(self).write_budget(),
            buf@.len() == 0 ==> r is Ok,
            old(self).stalled() ==> final(self).stalled(),
            old(self).accepts_all() ==> r is Ok && final(self).accepts_all(),
    {
        let mut done: usize = 0;
        let ghost a0 = self.accepted();
        while done < buf.len()
            invariant
                self.write_inv(),
                done <= buf@.len(),
                self.accepted() == a0 + buf@.take(done as int),
                a0 == old(self).accepted(),
                self.write_budget() <= old(self).write_budget(),
                old(self).stalled() ==> self.stalled(),
                old(self).accepts_all() ==> self.accepts_all(),
            decreases self.write_budget(), buf@.len() - done,
        {
            let rest = vstd::slice::slice_subrange(buf, done, buf.len());
            assert(rest@ =~= buf@.skip(done as int));
            match self.write(rest) {
                Ok(0) => {
                    return Err(Error::from_kind(ErrorKind::WriteZero));
                },
                Ok(n) => {
                    assert(buf@.take(done + n) =~= buf@.take(done as int) + rest@.take(n as int));
                    done = done + n;
                },
                Err(e) => {
                    if e.kind() == ErrorKind::Interrupted {
                    } else {
                        return Err(e);
                    }
                },
            }
        }
        assert(buf@.take(buf@.len() as int) =~= buf@);
        Ok(())
    }

    /// The writer itself, borrowed.
    fn by_ref(&mut self) -> (r: &mut Self)
        where Self: Sized
        ensures
            *r == *old(self),
            *final(self) == *final(r),
    {
        self
    }
}

/// Something with a cursor position.
///
/// As for `Read`, an implementation written outside verified code keeps the
/// default of the ghost function.
pub trait Seek {
    /// The position, counted in bytes from the start of the stream.
    closed spec fn seek_pos(&self) -> int {
        0
    }

    /// Move the position; the new position from the start. An offset from
    /// the start is taken as given and one from the current position is
    /// added to it; one from the end depends on the stream's length, which
    /// is not modelled here.
    fn seek(&mut self, pos: SeekFrom) -> (r: Result<u64, Error>)
        ensures
            r matches Ok(p) ==> p == final(self).seek_pos() && match pos {
                SeekFrom::Start(n) => p == n,
                SeekFrom::Current(off) => p == old(self).seek_pos() + off,
                SeekFrom::End(_) => true,
            },
    ;

    /// The current position, which stays where it is.
    fn stream_position(&mut self) -> (r: Result<u64, Error>)
        ensures
            r matches Ok(p) ==> p == old(self).seek_pos() && final(self).seek_pos() == p,
    {
        self.seek(SeekFrom::Current(0))
    }
}

/// The smaller of a count and a length.
pub open spec fn min_len(amt: int, len: int) -> int {
    if amt < len { amt } else { len }
}

/// No byte before the last one of `s` is `delim`.
pub open spec fn delim_only_last(s: Seq<u8>, delim: u8) -> bool {
    forall|j: int| 0 <= j < s.len() - 1 ==> #[trigger] s[j] != delim
}

/// A reader with an internal buffer that can be inspected before it is
/// consumed.
pub trait BufRead: Read {
    /// The bytes already read from the source and not yet consumed.
    closed spec fn buffered(&self) -> Seq<u8> {
        Seq::empty()
    }

    /// The buffered bytes, reading more from the source first if none are
    /// left; an empty result means the end of the stream.
    fn fill_buf(&mut self) -> (r: Result<&[u8], Error>)
        requires
            old(self).inv(),
            old(self).buffered().len() <= old(self).budget(),
        ensures
            final(self).inv(),
            final(self).buffered().len() <= final(self).budget(),
            final(self).delivered() == old(self).delivered(),
            final(self).budget() <= old(self).budget(),
            old(self).buffered().len() > 0 ==> final(self).buffered() == old(self).buffered() && r is Ok,
            final(self).source() == old(self).source(),
            within(final(self).source(), final(self).delivered() + final(self).buffered()),
            old(self).source() is Some ==> r is Ok,
            match r {
                Ok(s) => s@ == final(self).buffered() && (s@.len() == 0 ==> final(self).at_end()
                    && all_of(final(self).source(), final(self).delivered())) && final(self).reported()
                    == old(self).reported(),
                Err(e) => (e.kind_spec() == ErrorKind::Interrupted ==> final(self).budget() < old(self).budget())
                    && final(self).reported() == Some(e),
            },
    ;

    /// Mark `amt` buffered bytes (at most all of them) as read.
    fn consume(&mut self, amt: usize)
        requires
            old(self).inv(),
            old(self).buffered().len() <= old(self).budget(),
        ensures
            final(self).inv(),
            final(self).buffered().len() <= final(self).budget(),
            final(self).delivered() == old(self).delivered() + old(self).buffered().take(
                min_len(amt as int, old(self).buffered().len() as int),
            ),
            final(self).buffered() == old(self).buffered().skip(
                min_len(amt as int, old(self).buffered().len() as int),
            ),
            final(self).budget() == old(self).budget() - min_len(amt as int, old(self).buffered().len() as int),
            old(self).at_end() ==> final(self).at_end(),
            all_of(old(self).source(), old(self).delivered()) ==> all_of(final(self).source(), final(self).delivered()),
            final(self).reported() == old(self).reported(),
            final(self).source() == old(self).source(),
            within(final(self).source(), final(self).delivered() + final(self).buffered()),
    ;

    /// Append bytes to `buf` up to and including the first `delim`, or up to
    /// the end of the stream; interrupted reads are retried.
    fn read_until(&mut self, delim: u8, buf: &mut Vec<u8>) -> (r: Result<usize, Error>)
        requires
            old(self).inv(),
            old(self).buffered().len() <= old(self).budget(),
        ensures
            final(self).inv(),
            final(self).buffered().len() <= final(self).budget(),
            old(buf)@.is_prefix_of(final(buf)@),
            final(self).delivered() == old(self).delivered() + final(buf)@.skip(old(buf)@.len() as int),
            delim_only_last(final(buf)@.skip(old(buf)@.len() as int), delim),
            r matches Ok(n) ==> n == final(buf)@.len() - old(buf)@.len() && ((n > 0 && final(buf)@.last()
                == delim) || (final(self).at_end() && all_of(final(self).source(), final(self).delivered()))),
            r matches Err(e) ==> e.kind_spec() != ErrorKind::Interrupted && final(self).reported() == Some(e),
            old(self).buffered().contains(delim) ==> r is Ok,
            old(self).source() is Some ==> r is Ok,
            final(self).source() == old(self).source(),
            within(final(self).source(), final(self).delivered()),
    {
        let start = buf.len();
        let ghost d0 = self.delivered();
        let mut read: usize = 0;
        loop
            invariant
                self.inv(),
                self.buffered().len() <= self.budget(),
                start == old(buf)@.len(),
                old(buf)@.is_prefix_of(buf@),
                self.delivered() == d0 + buf@.skip(start as int),
                d0 == old(self).delivered(),
                read == buf@.len() - start,
                forall|j: int| start <= j < buf@.len() ==> #[trigger] buf@[j] != delim,
                old(self).buffered().contains(delim) ==> buf@.len() == start && self.buffered()
                    == old(self).buffered(),
                self.source() == old(self).source(),
            decreases self.budget(),
        {
            let ghost b0 = self.budget();
            let ghost before = buf@;
            let (done, used) = match self.fill_buf() {
                Ok(available) => {
                    let mut i: usize = 0;
                    let mut found = false;
                    while i < available.len() && !found
                        invariant
                            i <= available@.len(),
                            buf@ == before + available@.take(i as int),
                            found ==> i > 0 && available@[i - 1] == delim,
                            forall|j: int| 0 <= j < i && !(found && j == i - 1) ==> #[trigger] available@[j] != delim,
                        decreases available@.len() - i,
                    {
                        buf.push(available[i]);
                        found = available[i] == delim;
                        i += 1;
                        assert(buf@ =~= before + available@.take(i as int));
                    }
                    proof {
                        if found {
                            assert(buf@.last() == delim);
                        }
                        if old(self).buffered().contains(delim) && !found {
                            let k = choose|k: int| 0 <= k < available@.len() && available@[k] == delim;
                            assert(available@[k] != delim);
                        }
                    }
                    (found || available.len() == 0, i)
                },
                Err(e) => {
                    if e.kind() == ErrorKind::Interrupted {
                        continue;
                    } else {
                        proof { lemma_prefix_append(d0, buf@.skip(start as int)); }
                        return Err(e);
                    }
                },
            };
            let ghost avail = self.buffered();
            proof {
                assert(buf@.skip(start as int) =~= before.skip(start as int) + avail.take(used as int));
                assert(old(buf)@.is_prefix_of(buf@)) by {
                    assert forall|j: int| 0 <= j < old(buf)@.len() implies old(buf)@[j] == buf@[j] by {
                        assert(before[j] == old(buf)@[j]);
                    }
                }
            }
            self.consume(used);
            read = buf.len() - start;
            if done || used == 0 {
                return Ok(read);
            }
        }
    }

    /// Read one line, through its newline if there is one, and append it to
    /// `buf`; bytes that are not valid UTF-8 are `InvalidData` and leave
    /// `buf` unchanged.
    fn read_line(&mut self, buf: &mut String) -> (r: Result<usize, Error>)
        requires
            old(self).inv(),
            old(self).buffered().len() <= old(self).budget(),
        ensures
            final(self).inv(),
            final(self).buffered().len() <= final(self).budget(),
            old(self).delivered().is_prefix_of(final(self).delivered()),
            delim_only_last(final(self).delivered().skip(old(self).delivered().len() as int), 10u8),
            match r {
                Ok(n) => {
                    let got = final(self).delivered().skip(old(self).delivered().len() as int);
                    &&& valid_utf8(got)
                    &&& n == got.len()
                    &&& final(buf)@ == old(buf)@ + decode_utf8(got)
                    &&& (got.len() > 0 && got.last() == 10u8) || (final(self).at_end()
                        && all_of(final(self).source(), final(self).delivered()))
                },
                Err(e) => {
                    let got = final(self).delivered().skip(old(self).delivered().len() as int);
                    &&& final(buf)@ == old(buf)@
                    &&& (e.kind_spec() == ErrorKind::InvalidData && !valid_utf8(got)
                        && ((got.len() > 0 && got.last() == 10u8) || (final(self).at_end()
                        && all_of(final(self).source(), final(self).delivered()))))
                        || (e.kind_spec() != ErrorKind::Interrupted && final(self).reported() == Some(e))
                },
            },
            old(self).source() is Some ==> (r is Ok <==> valid_utf8(
                final(self).delivered().skip(old(self).delivered().len() as int),
            )),
            final(self).source() == old(self).source(),
            within(final(self).source(), final(self).delivered()),
    {
        let mut bytes: Vec<u8> = Vec::new();
        let res = self.read_until(10u8, &mut bytes);
        assert(bytes@.skip(0) =~= bytes@);
        proof { lemma_prefix_append(old(self).delivered(), bytes@); }
        assert(self.delivered().skip(old(self).delivered().len() as int) =~= bytes@);
        let n = match res {
            Ok(n) => n,
            Err(e) => return Err(e),
        };
        match decode_str(bytes.as_slice()) {
            Some(s) => {
                buf.append(s);
                Ok(n)
            },
            None => Err(Error::from_kind(ErrorKind::InvalidData)),
        }
    }
}

impl Write for Vec<u8> {
    open spec fn accepted(&self) -> Seq<u8> {
        self@
    }

    open spec fn write_budget(&self) -> nat {
        0
    }

    open spec fn write_inv(&self) -> bool {
        true
    }

    /// A vector never fails.
    open spec fn write_reported(&self) -> Option<Error> {
        None
    }

    /// A vector takes in every byte.
    open spec fn stalled(&self) -> bool {
        false
    }

    /// A vector takes in everything.
    open spec fn accepts_all(&self) -> bool {
        true
    }

    /// Append all of `buf`.
    fn write(&mut self, buf: &[u8]) -> (r: Result<usize, Error>)
        ensures
            r == Ok::<usize, Error>(buf@.len() as usize),
            final(self)@ == old(self)@ + buf@,
    {
        let mut i: usize = 0;
        while i < buf.len()
            invariant
                i <= buf@.len(),
                self@ == old(self)@ + buf@.take(i as int),
            decreases buf@.len() - i,
        {
            self.push(buf[i]);
            i += 1;
            assert(self@ =~= old(self)@ + buf@.take(i as int));
        }
        assert(buf@.take(buf@.len() as int) =~= buf@);
        assert(self.write_budget() == 0);
        assert(old(self).write_budget() == 0);
        Ok(buf.len())
    }

    /// Nothing to push out.
    fn flush(&mut self) -> (r: Result<(), Error>)
        ensures
            r is Ok,
            final(self)@ == old(self)@,
    {
        Ok(())
    }
}

/// Copy everything from `reader` to `writer`, retrying interrupted reads;
/// the number of bytes copied (a count past `u64::MAX` is an `Other`
/// error).
pub fn copy<R: Read, W: Write>(reader: &mut R, writer: &mut W) -> (r: Result<u64, Error>)
    requires
        old(reader).inv(),
        old(writer).write_inv(),
    ensures
        final(reader).inv(),
        final(writer).write_inv(),
        old(reader).delivered().is_prefix_of(final(reader).delivered()),
        r matches Ok(n) ==> final(writer).accepted() == old(writer).accepted() + final(reader).delivered().skip(
            old(reader).delivered().len() as int) && n == final(reader).delivered().len() - old(reader).delivered().len()
            && final(reader).at_end() && all_of(final(reader).source(), final(reader).delivered()),
        r matches Err(e) ==> e.kind_spec() != ErrorKind::Interrupted && (final(reader).reported() == Some(e)
            || final(writer).write_reported() == Some(e) || (e.kind_spec() == ErrorKind::WriteZero
            && final(writer).stalled()) || (e.kind_spec() == ErrorKind::Other
            && final(reader).delivered().len() - old(reader).delivered().len() > u64::MAX)),
        old(reader).source() matches Some(s) && old(writer).accepts_all() && s.len()
            - old(reader).delivered().len() <= u64::MAX ==> r is Ok,
        final(reader).source() == old(reader).source(),
{
    let mut total: u64 = 0;
    let ghost d0 = reader.delivered();
    let ghost a0 = writer.accepted();
    loop
        invariant
            reader.inv(),
            writer.write_inv(),
            d0 == old(reader).delivered(),
            a0 == old(writer).accepted(),
            d0.is_prefix_of(reader.delivered()),
            writer.accepted() == a0 + reader.delivered().skip(d0.len() as int),
            total == reader.delivered().len() - d0.len(),
            reader.source() == old(reader).source(),
            old(writer).accepts_all() ==> writer.accepts_all(),
        ensures
            reader.at_end(),
            all_of(reader.source(), reader.delivered()),
        decreases reader.budget(),
    {
        let mut buf = [0u8; 8192];
        let ghost before = reader.delivered();
        let n = match reader.read(&mut buf) {
            Ok(0) => {
                break;
            },
            Ok(n) => n,
            Err(e) => {
                if e.kind() == ErrorKind::Interrupted {
                    continue;
                } else {
                    return Err(e);
                }
            },
        };
        let chunk = vstd::slice::slice_subrange(buf.as_slice(), 0, n);
        assert(chunk@ =~= buf@.take(n as int));
        match writer.write_all(chunk) {
            Ok(()) => {},
            Err(e) => {
                proof {
                    assert(d0.is_prefix_of(reader.delivered())) by {
                        assert forall|j: int| 0 <= j < d0.len() implies d0[j] == reader.delivered()[j] by {
                            assert(before[j] == d0[j]);
                        }
                    }
                }
                return Err(e);
            },
        }
        proof {
            assert(reader.delivered().skip(d0.len() as int) =~= before.skip(d0.len() as int) + chunk@);
            assert(d0.is_prefix_of(reader.delivered())) by {
                assert forall|j: int| 0 <= j < d0.len() implies d0[j] == reader.delivered()[j] by {
                    assert(before[j] == d0[j]);
                }
            }
        }
        if total > u64::MAX - n as u64 {
            return Err(Error::new(ErrorKind::Other, "byte count overflow"));
        }
        total = total + n as u64;
    }
    Ok(total)
}

} // verus!
