//! The in-memory `Cursor` and the buffering adapters `BufReader` and
//! `BufWriter`.
use vstd::prelude::*;
use vstd::utf8::{valid_utf8, decode_utf8};
use vstd::string::StringExecFns;
use crate::env::decode_str;
use crate::io::{Read, Write, BufRead, min_len, within, all_of};
use crate::io_error::{Error, ErrorKind};

verus! {

/// A byte buffer with a read/write position.
pub struct Cursor<T> {
    pub inner: T,
    pub pos: u64,
    /// The bytes written through the cursor so far.
    pub log: Ghost<Seq<u8>>,
    /// The error of the latest write that was refused, if any was.
    pub write_err: Ghost<Option<Error>>,
}

impl<T> Cursor<T> {
    /// A cursor at position 0.
    pub fn new(inner: T) -> (c: Cursor<T>)
        ensures
            c.inner == inner,
            c.pos == 0,
            c.log@ == Seq::<u8>::empty(),
            c.write_err@ is None,
    {
        Cursor { inner, pos: 0, log: Ghost(Seq::empty()), write_err: Ghost(None) }
    }

    /// The underlying value.
    pub fn into_inner(self) -> (t: T)
        ensures
            t == self.inner,
    {
        self.inner
    }

    /// A reference to the underlying value.
    pub fn get_ref(&self) -> (t: &T)
        ensures
            *t == self.inner,
    {
        &self.inner
    }

    /// The current position.
    pub fn position(&self) -> (p: u64)
        ensures
            p == self.pos,
    {
        self.pos
    }

    /// Move to position `pos`.
    pub fn set_position(&mut self, pos: u64)
        ensures
            final(self).pos == pos,
            final(self).inner == old(self).inner,
            final(self).log == old(self).log,
            final(self).write_err == old(self).write_err,
    {
        self.pos = pos;
    }
}

/// The position clamped to the data length.
pub open spec fn clamp(pos: u64, len: nat) -> int {
    if pos as int >= len { len as int } else { pos as int }
}

/// The buffer after writing `data` at `pos`: padded with zeros up to `pos`
/// if it was shorter, then overwritten (and extended) by `data`.
pub open spec fn overwrite(buf: Seq<u8>, pos: int, data: Seq<u8>) -> Seq<u8> {
    let end = pos + data.len();
    let len = if buf.len() > end { buf.len() as int } else { end };
    Seq::new(len as nat, |i: int| if pos <= i < end { data[i - pos] } else if i < buf.len() { buf[i] } else { 0u8 })
}

/// Reading back what was just written: after `data` is written at `pos`,
/// the bytes from `pos` on are `data`, the bytes before `pos` that existed
/// are unchanged, and the buffer is just long enough for both.
pub proof fn lemma_overwrite_reads_back(buf: Seq<u8>, pos: int, data: Seq<u8>)
    requires
        0 <= pos,
    ensures
        overwrite(buf, pos, data).subrange(pos, pos + data.len()) == data,
        overwrite(buf, pos, data).len() == if buf.len() > pos + data.len() { buf.len() as int } else { pos + data.len() },
        forall|j: int| 0 <= j < pos && j < buf.len() ==> #[trigger] overwrite(buf, pos, data)[j] == buf[j],
        forall|j: int| pos + data.len() <= j < buf.len() ==> #[trigger] overwrite(buf, pos, data)[j] == buf[j],
{
    assert(overwrite(buf, pos, data).subrange(pos, pos + data.len()) =~= data);
}

/// Copy the bytes of `data` from `pos` on (the position clamped to the
/// data) into the front of `buf`, as many as fit; the count.
fn copy_at(data: &[u8], pos: u64, buf: &mut [u8]) -> (n: usize)
    ensures
        ({
            let start = clamp(pos, data@.len());
            &&& n == min_len(old(buf)@.len() as int, data@.len() - start)
            &&& final(buf)@.len() == old(buf)@.len()
            &&& final(buf)@.take(n as int) == data@.subrange(start, start + n)
            &&& final(buf)@.skip(n as int) == old(buf)@.skip(n as int)
        }),
{
    let len = data.len();
    let start: usize = if pos >= len as u64 { len } else { pos as usize };
    let avail = len - start;
    let n = if buf.len() < avail { buf.len() } else { avail };
    let ghost b0 = buf@;
    let mut k: usize = 0;
    while k < n
        invariant
            k <= n,
            start + n <= data@.len(),
            data@.len() == len,
            start == clamp(pos, data@.len()),
            n <= buf@.len(),
            buf@.len() == b0.len(),
            b0 == old(buf)@,
            forall|j: int| 0 <= j < k ==> #[trigger] buf@[j] == data@[start + j],
            forall|j: int| k <= j < buf@.len() ==> #[trigger] buf@[j] == b0[j],
        decreases n - k,
    {
        buf[k] = data[start + k];
        k += 1;
    }
    assert(buf@.take(n as int) =~= data@.subrange(start as int, start + n));
    assert(buf@.skip(n as int) =~= b0.skip(n as int));
    n
}

impl Read for Cursor<Vec<u8>> {
    open spec fn delivered(&self) -> Seq<u8> {
        self.inner@.take(clamp(self.pos, self.inner@.len()))
    }

    /// At the end once the position has reached the data's end.
    open spec fn at_end(&self) -> bool {
        self.pos >= self.inner@.len()
    }

    /// Reading from memory never fails.
    open spec fn reported(&self) -> Option<Error> {
        None
    }

    /// The data is the whole stream.
    open spec fn source(&self) -> Option<Seq<u8>> {
        Some(self.inner@)
    }

    open spec fn budget(&self) -> nat {
        (self.inner@.len() - clamp(self.pos, self.inner@.len())) as nat
    }

    open spec fn inv(&self) -> bool {
        true
    }

    /// Copy the bytes from the position (clamped to the data) on, as many as
    /// fit, and advance the position by their count.
    fn read(&mut self, buf: &mut [u8]) -> (r: Result<usize, Error>)
        ensures
            r matches Ok(n) && ({
                let start = clamp(old(self).pos, old(self).inner@.len());
                &&& n == min_len(old(buf)@.len() as int, old(self).inner@.len() - start)
                &&& final(buf)@.take(n as int) == old(self).inner@.subrange(start, start + n)
                &&& final(buf)@.skip(n as int) == old(buf)@.skip(n as int)
                &&& final(self).pos == old(self).pos + n
                &&& final(self).inner == old(self).inner
            }),
    {
        let len = self.inner.len();
        let start: usize = if self.pos >= len as u64 { len } else { self.pos as usize };
        let n = copy_at(self.inner.as_slice(), self.pos, buf);
        proof {
            assert(self.inner@.take(start + n) =~= self.inner@.take(start as int) + buf@.take(n as int));
            assert(self.inner@.take(self.inner@.len() as int) =~= self.inner@);
        }
        if n > 0 {
            self.pos = (start + n) as u64;
        }
        Ok(n)
    }
}

impl<'a> Read for Cursor<&'a [u8]> {
    open spec fn delivered(&self) -> Seq<u8> {
        self.inner@.take(clamp(self.pos, self.inner@.len()))
    }

    /// At the end once the position has reached the data's end.
    open spec fn at_end(&self) -> bool {
        self.pos >= self.inner@.len()
    }

    /// Reading from memory never fails.
    open spec fn reported(&self) -> Option<Error> {
        None
    }

    /// The data is the whole stream.
    open spec fn source(&self) -> Option<Seq<u8>> {
        Some(self.inner@)
    }

    open spec fn budget(&self) -> nat {
        (self.inner@.len() - clamp(self.pos, self.inner@.len())) as nat
    }

    open spec fn inv(&self) -> bool {
        true
    }

    /// Copy the bytes from the position (clamped to the data) on, as many as
    /// fit, and advance the position by their count.
    fn read(&mut self, buf: &mut [u8]) -> (r: Result<usize, Error>)
        ensures
            r matches Ok(n) && ({
                let start = clamp(old(self).pos, old(self).inner@.len());
                &&& n == min_len(old(buf)@.len() as int, old(self).inner@.len() - start)
                &&& final(buf)@.take(n as int) == old(self).inner@.subrange(start, start + n)
                &&& final(buf)@.skip(n as int) == old(buf)@.skip(n as int)
                &&& final(self).pos == old(self).pos + n
                &&& final(self).inner == old(self).inner
            }),
    {
        let len = self.inner.len();
        let start: usize = if self.pos >= len as u64 { len } else { self.pos as usize };
        let n = copy_at(self.inner, self.pos, buf);
        proof {
            assert(self.inner@.take(start + n) =~= self.inner@.take(start as int) + buf@.take(n as int));
            assert(self.inner@.take(self.inner@.len() as int) =~= self.inner@);
        }
        if n > 0 {
            self.pos = (start + n) as u64;
        }
        Ok(n)
    }
}

impl Write for Cursor<Vec<u8>> {
    open spec fn accepted(&self) -> Seq<u8> {
        self.log@
    }

    open spec fn write_budget(&self) -> nat {
        0
    }

    open spec fn write_inv(&self) -> bool {
        true
    }

    /// The error of the latest write that ran past the largest position.
    open spec fn write_reported(&self) -> Option<Error> {
        self.write_err@
    }

    /// A write takes in all of its bytes or fails.
    open spec fn stalled(&self) -> bool {
        false
    }

    /// A write past the largest position fails.
    open spec fn accepts_all(&self) -> bool {
        false
    }

    /// Write `data` at the position, zero-padding a gap before it; the
    /// position moves past the written bytes.
    fn write(&mut self, data: &[u8]) -> (r: Result<usize, Error>)
        ensures
            r is Err <==> old(self).pos + data@.len() > usize::MAX,
            r matches Ok(n) ==> n == data@.len() && final(self).inner@ == overwrite(old(self).inner@, old(self).pos as int, data@)
                && final(self).pos == old(self).pos + data@.len(),
            r matches Err(e) ==> e.kind_spec() == ErrorKind::InvalidInput && final(self).inner == old(self).inner
                && final(self).pos == old(self).pos,
    {
        if self.pos > (usize::MAX as u64) {
            let e = Error::from_kind(ErrorKind::InvalidInput);
            self.write_err = Ghost(Some(e));
            return Err(e);
        }
        let pos = self.pos as usize;
        if data.len() > usize::MAX - pos {
            let e = Error::from_kind(ErrorKind::InvalidInput);
            self.write_err = Ghost(Some(e));
            return Err(e);
        }
        let ghost old_inner = self.inner@;
        if pos > self.inner.len() {
            let ghost before = self.inner@;
            self.inner.resize(pos, 0);
            proof {
                assert forall|j: int| 0 <= j < self.inner@.len() implies #[trigger] self.inner@[j] == (if j < before.len() { before[j] } else { 0u8 }) by {
                    if j < before.len() {
                        assert(self.inner@.subrange(0, before.len() as int)[j] == before[j]);
                    } else {
                        assert(cloned::<u8>(0u8, self.inner@[j]));
                    }
                }
            }
        }
        let end = pos + data.len();
        if end > self.inner.len() {
            let ghost before = self.inner@;
            self.inner.resize(end, 0);
            proof {
                assert forall|j: int| 0 <= j < self.inner@.len() implies #[trigger] self.inner@[j] == (if j < before.len() { before[j] } else { 0u8 }) by {
                    if j < before.len() {
                        assert(self.inner@.subrange(0, before.len() as int)[j] == before[j]);
                    } else {
                        assert(cloned::<u8>(0u8, self.inner@[j]));
                    }
                }
            }
        }
        let ghost padded = self.inner@;
        assert(padded.len() >= old_inner.len());
        assert forall|j: int| 0 <= j < padded.len() implies #[trigger] padded[j] == (if j < old_inner.len() { old_inner[j] } else { 0u8 }) by {
        }
        let mut k: usize = 0;
        while k < data.len()
            invariant
                k <= data@.len(),
                end == pos + data@.len(),
                self.log == old(self).log,
                self.write_err == old(self).write_err,
                self.inner@.len() == padded.len(),
                padded.len() >= end,
                forall|j: int| 0 <= j < self.inner@.len() ==> #[trigger] self.inner@[j] == if pos <= j < pos + k {
                    data@[j - pos]
                } else {
                    padded[j]
                },
            decreases data@.len() - k,
        {
            self.inner.set(pos + k, data[k]);
            k += 1;
        }
        proof {
            assert(self.inner@ =~= overwrite(old_inner, pos as int, data@));
        }
        self.pos = end as u64;
        self.log = Ghost(self.log@ + data@);
        assert(data@.take(data@.len() as int) =~= data@);
        assert(self.write_budget() == 0);
        assert(old(self).write_budget() == 0);
        Ok(data.len())
    }

    /// Nothing to push out.
    fn flush(&mut self) -> (r: Result<(), Error>)
        ensures
            r is Ok,
            *final(self) == *old(self),
    {
        Ok(())
    }
}


/// `a <= b` still holds after scaling both sides by `m`.
proof fn lemma_scale_le(a: nat, b: nat, m: nat)
    by (nonlinear_arith)
    requires
        a <= b,
    ensures
        a * m <= b * m,
{
}

/// `a < b` leaves room for anything below `m` after scaling by `m`.
proof fn lemma_scale_lt(a: nat, b: nat, m: nat, extra: nat)
    by (nonlinear_arith)
    requires
        a < b,
        extra < m,
    ensures
        a * m + extra < b * m,
{
}

/// The buffer size of a `BufReader` or `BufWriter` made with `new`.
pub const DEFAULT_BUF_SIZE: usize = 8192;

/// A reader that fills a buffer from an inner reader and serves reads from
/// it.
pub struct BufReader<R> {
    pub inner: R,
    pub buf: Vec<u8>,
    pub pos: usize,
    pub cap: usize,
    /// The bytes handed out to the caller so far.
    pub consumed: Ghost<Seq<u8>>,
}

impl<R: Read> BufReader<R> {
    /// The bytes read from the inner reader and not yet handed out.
    pub open spec fn pending(&self) -> Seq<u8> {
        self.buf@.subrange(self.pos as int, self.cap as int)
    }

    /// A reader with a buffer of `DEFAULT_BUF_SIZE` bytes.
    pub fn new(inner: R) -> (r: BufReader<R>)
        ensures
            r.inner == inner,
            r.buf@.len() == DEFAULT_BUF_SIZE,
            r.pos == 0 && r.cap == 0,
            r.consumed@ == inner.delivered(),
    {
        Self::with_capacity(DEFAULT_BUF_SIZE, inner)
    }

    /// A reader with a buffer of `cap` bytes.
    pub fn with_capacity(cap: usize, inner: R) -> (r: BufReader<R>)
        ensures
            r.inner == inner,
            r.buf@.len() == cap,
            r.pos == 0 && r.cap == 0,
            r.consumed@ == inner.delivered(),
    {
        let ghost d = inner.delivered();
        BufReader { inner, buf: vec![0u8; cap], pos: 0, cap: 0, consumed: Ghost(d) }
    }

    /// The inner reader.
    pub fn get_ref(&self) -> (r: &R)
        ensures
            *r == self.inner,
    {
        &self.inner
    }

    /// The inner reader, for changing it in place.
    pub fn get_mut(&mut self) -> (r: &mut R)
        ensures
            *r == old(self).inner,
            final(self).inner == *final(r),
            final(self).buf == old(self).buf,
            final(self).pos == old(self).pos,
            final(self).cap == old(self).cap,
            final(self).consumed == old(self).consumed,
    {
        &mut self.inner
    }

    /// The inner reader; buffered bytes are dropped.
    pub fn into_inner(self) -> (r: R)
        ensures
            r == self.inner,
    {
        self.inner
    }

    /// Read from the inner reader into the buffer when it is used up.
    fn refill(&mut self) -> (r: Result<(), Error>)
        requires
            old(self).inv(),
        ensures
            final(self).inv(),
            final(self).consumed == old(self).consumed,
            final(self).buf@.len() == old(self).buf@.len(),
            final(self).budget() <= old(self).budget(),
            old(self).pos < old(self).cap ==> final(self).pending() == old(self).pending()
                && final(self).budget() == old(self).budget() && r is Ok && *final(self) == *old(self),
            r is Err ==> final(self).pos == final(self).cap,
            r matches Err(e) ==> (e.kind_spec() == ErrorKind::Interrupted ==> final(self).budget()
                < old(self).budget()) && final(self).inner.reported() == Some(e),
            r is Ok ==> final(self).inner.reported() == old(self).inner.reported(),
            r is Ok && old(self).buf@.len() > 0 ==> final(self).pos < final(self).cap
                || (final(self).inner.at_end() && all_of(final(self).inner.source(), final(self).inner.delivered())),
            final(self).inner.source() == old(self).inner.source(),
            old(self).inner.source() is Some ==> r is Ok,
    {
        if self.pos >= self.cap {
            let ghost ib = self.inner.budget();
            let ghost m: nat = (self.buf@.len() + 1) as nat;
            let ghost len = self.buf@.len();
            match self.inner.read(self.buf.as_mut_slice()) {
                Ok(n) => {
                    self.cap = n;
                    self.pos = 0;
                    proof {
                        assert(self.pending() =~= self.buf@.take(n as int));
                        if n > 0 {
                            lemma_scale_lt(self.inner.budget(), ib, m, n as nat);
                        } else {
                            lemma_scale_le(self.inner.budget(), ib, m);
                        }
                    }
                },
                Err(e) => {
                    proof {
                        assert(self.pending() =~= Seq::<u8>::empty());
                        lemma_scale_le(self.inner.budget(), ib, m);
                        if e.kind_spec() == ErrorKind::Interrupted {
                            lemma_scale_lt(self.inner.budget(), ib, m, 0);
                        }
                    }
                    return Err(e);
                },
            }
        }
        Ok(())
    }
}

impl<R: Read> Read for BufReader<R> {
    open spec fn delivered(&self) -> Seq<u8> {
        self.consumed@
    }

    open spec fn budget(&self) -> nat {
        self.inner.budget() * (self.buf@.len() + 1) as nat + (self.cap - self.pos) as nat
    }

    open spec fn inv(&self) -> bool {
        &&& self.inner.inv()
        &&& self.pos <= self.cap <= self.buf@.len()
        &&& self.inner.delivered() == self.consumed@ + self.pending()
        &&& within(self.inner.source(), self.inner.delivered())
    }

    /// Nothing buffered, and the inner reader at its end (a reader without
    /// a buffer has nothing to fill and so always reports the end from
    /// `fill_buf`).
    open spec fn at_end(&self) -> bool {
        self.pos >= self.cap && (self.buf@.len() == 0 || self.inner.at_end())
    }

    /// The inner reader's latest error.
    open spec fn reported(&self) -> Option<Error> {
        self.inner.reported()
    }

    /// The inner reader's stream, when there is a buffer to fill from it (a
    /// reader without one reports the end from `fill_buf` at once).
    open spec fn source(&self) -> Option<Seq<u8>> {
        if self.buf@.len() == 0 { None } else { self.inner.source() }
    }

    /// Serve from the buffer, refilling it when it is empty; a read at least
    /// as large as the buffer goes to the inner reader directly.
    fn read(&mut self, out: &mut [u8]) -> (r: Result<usize, Error>)
        ensures
            old(self).pos < old(self).cap ==> (r matches Ok(n) && n == min_len(
                old(out)@.len() as int,
                old(self).cap - old(self).pos,
            ) && final(out)@.take(n as int) == old(self).pending().take(n as int)
                && final(self).inner == old(self).inner),
    {
        if self.pos == self.cap && out.len() >= self.buf.len() {
            let ghost ib = self.inner.budget();
            let ghost m: nat = (self.buf@.len() + 1) as nat;
            let r = self.inner.read(out);
            self.consumed = Ghost(self.inner.delivered());
            proof {
                assert(self.pending() =~= Seq::<u8>::empty());
                assert(self.inner.delivered() =~= self.consumed@ + self.pending());
                lemma_scale_le(self.inner.budget(), ib, m);
                if self.inner.budget() < ib {
                    lemma_scale_lt(self.inner.budget(), ib, m, 0);
                }
                match r {
                    Ok(n) => {
                        assert(old(self).pending() =~= Seq::<u8>::empty());
                    },
                    Err(_) => {
                        assert(old(self).pending() =~= Seq::<u8>::empty());
                    },
                }
            }
            return r;
        }
        match self.refill() {
            Ok(()) => {},
            Err(e) => {
                return Err(e);
            },
        }
        let avail = self.cap - self.pos;
        let n = if avail < out.len() { avail } else { out.len() };
        let ghost p0 = self.pending();
        let mut k: usize = 0;
        while k < n
            invariant
                k <= n,
                n <= out@.len(),
                n <= p0.len(),
                self.pos + n <= self.cap <= self.buf@.len(),
                p0 == self.buf@.subrange(self.pos as int, self.cap as int),
                out@.len() == old(out)@.len(),
                forall|j: int| 0 <= j < k ==> #[trigger] out@[j] == p0[j],
            decreases n - k,
        {
            out[k] = self.buf[self.pos + k];
            k += 1;
        }
        self.pos = self.pos + n;
        self.consumed = Ghost(self.consumed@ + out@.take(n as int));
        proof {
            assert(out@.take(n as int) =~= p0.take(n as int));
            assert(self.pending() =~= p0.skip(n as int));
            assert(p0 =~= p0.take(n as int) + p0.skip(n as int));
            assert(self.inner.delivered() =~= self.consumed@ + self.pending());
        }
        Ok(n)
    }
}

impl<R: Read> BufRead for BufReader<R> {
    open spec fn buffered(&self) -> Seq<u8> {
        self.pending()
    }

    fn fill_buf(&mut self) -> (r: Result<&[u8], Error>) {
        match self.refill() {
            Ok(()) => {},
            Err(e) => {
                return Err(e);
            },
        }
        let s = vstd::slice::slice_subrange(self.buf.as_slice(), self.pos, self.cap);
        Ok(s)
    }

    fn consume(&mut self, amt: usize) {
        let room = self.cap - self.pos;
        let k = if amt < room { amt } else { room };
        let ghost p0 = self.pending();
        self.pos = self.pos + k;
        self.consumed = Ghost(self.consumed@ + p0.take(k as int));
        proof {
            assert(self.pending() =~= p0.skip(k as int));
            assert(p0 =~= p0.take(k as int) + p0.skip(k as int));
            assert(self.inner.delivered() =~= self.consumed@ + self.pending());
        }
    }
}


/// A writer that collects small writes in a buffer and passes them on to
/// an inner writer in larger pieces.
pub struct BufWriter<W> {
    pub inner: W,
    pub buf: Vec<u8>,
    /// The error of the latest write or flush that failed, if any did.
    pub err: Ghost<Option<Error>>,
}

impl<W: Write> BufWriter<W> {
    /// A writer with a buffer of `DEFAULT_BUF_SIZE` bytes.
    pub fn new(inner: W) -> (r: BufWriter<W>)
        ensures
            r.inner == inner,
            r.buf@ == Seq::<u8>::empty(),
            r.err@ is None,
    {
        BufWriter { inner, buf: Vec::new(), err: Ghost(None) }
    }

    /// The inner writer.
    pub fn get_ref(&self) -> (r: &W)
        ensures
            *r == self.inner,
    {
        &self.inner
    }

    /// The inner writer, for changing it in place.
    pub fn get_mut(&mut self) -> (r: &mut W)
        ensures
            *r == old(self).inner,
            final(self).inner == *final(r),
            final(self).buf == old(self).buf,
            final(self).err == old(self).err,
    {
        &mut self.inner
    }

    /// Pass the whole buffer on to the inner writer and empty it.
    fn flush_buf(&mut self) -> (r: Result<(), Error>)
        requires
            old(self).write_inv(),
        ensures
            final(self).write_inv(),
            final(self).write_budget() <= old(self).write_budget(),
            r matches Err(e) ==> e.kind_spec() != ErrorKind::Interrupted && final(self).err@ == Some(e),
            r is Ok ==> final(self).err == old(self).err,
            old(self).stalled() ==> final(self).stalled(),
            old(self).accepts_all() ==> r is Ok && final(self).accepts_all(),
            old(self).buf@.len() == 0 ==> r is Ok && *final(self) == *old(self),
            r is Ok ==> final(self).buf@ == Seq::<u8>::empty()
                && final(self).inner.accepted() == old(self).inner.accepted() + old(self).buf@,
            r is Err ==> final(self).buf@ == old(self).buf@,
    {
        if self.buf.len() > 0 {
            match self.inner.write_all(self.buf.as_slice()) {
                Ok(()) => {},
                Err(e) => {
                    self.err = Ghost(Some(e));
                    return Err(e);
                },
            }
            self.buf.clear();
        }
        Ok(())
    }

    /// Flush the buffer and give back the inner writer.
    pub fn into_inner(self) -> (r: Result<W, Error>)
        requires
            self.write_inv(),
        ensures
            r matches Ok(w) ==> w.accepted() == self.accepted() && w.write_inv(),
            self.buf@.len() == 0 ==> r == Ok::<W, Error>(self.inner),
            self.inner.accepts_all() ==> r is Ok,
            r matches Err(e) ==> e.kind_spec() != ErrorKind::Interrupted,
    {
        let mut me = self;
        match me.flush_buf() {
            Ok(()) => {},
            Err(e) => {
                return Err(e);
            },
        }
        Ok(me.inner)
    }
}

impl<W: Write> Write for BufWriter<W> {
    open spec fn accepted(&self) -> Seq<u8> {
        self.inner.accepted() + self.buf@
    }

    open spec fn write_budget(&self) -> nat {
        self.inner.write_budget()
    }

    open spec fn write_inv(&self) -> bool {
        self.inner.write_inv() && self.buf@.len() <= DEFAULT_BUF_SIZE
    }

    /// The latest error of a write or flush through this writer.
    open spec fn write_reported(&self) -> Option<Error> {
        self.err@
    }

    /// A write to the inner writer has taken in nothing.
    open spec fn stalled(&self) -> bool {
        self.inner.stalled()
    }

    /// The inner writer takes in everything.
    open spec fn accepts_all(&self) -> bool {
        self.inner.accepts_all()
    }

    /// Buffer `data` when it fits, flushing first when it would not; data at
    /// least as large as the buffer goes to the inner writer directly.
    fn write(&mut self, data: &[u8]) -> (r: Result<usize, Error>)
        ensures
            old(self).buf@.len() + data@.len() <= DEFAULT_BUF_SIZE && data@.len() < DEFAULT_BUF_SIZE
                ==> r == Ok::<usize, Error>(data@.len() as usize) && final(self).inner == old(self).inner
                && final(self).buf@ == old(self).buf@ + data@,
    {
        if data.len() > DEFAULT_BUF_SIZE - self.buf.len() {
            match self.flush_buf() {
                Ok(()) => {
                    assert(self.inner.accepted() + self.buf@ =~= old(self).inner.accepted() + old(self).buf@);
                },
                Err(e) => {
                    return Err(e);
                },
            }
        }
        if data.len() >= DEFAULT_BUF_SIZE {
            let ghost a0 = self.inner.accepted();
            assert(self.buf@.len() == 0);
            let r = self.inner.write(data);
            proof {
                assert(self.buf@ =~= Seq::<u8>::empty());
                assert(self.inner.accepted() + self.buf@ =~= self.inner.accepted());
                assert(a0 + self.buf@ =~= a0);
            }
            match r {
                Ok(n) => Ok(n),
                Err(e) => {
                    self.err = Ghost(Some(e));
                    Err(e)
                },
            }
        } else {
            let ghost b0 = self.buf@;
            let ghost inner0 = self.inner;
            assert(inner0.accepted() + b0 == old(self).accepted());
            let mut i: usize = 0;
            while i < data.len()
                invariant
                    i <= data@.len(),
                    data@.len() < DEFAULT_BUF_SIZE,
                    b0.len() + data@.len() <= DEFAULT_BUF_SIZE,
                    self.buf@ == b0 + data@.take(i as int),
                    self.inner == inner0,
                    self.err == old(self).err,
                    inner0.accepted() + b0 == old(self).accepted(),
                    inner0.write_inv(),
                    inner0.write_budget() <= old(self).write_budget(),
                decreases data@.len() - i,
            {
                self.buf.push(data[i]);
                i += 1;
                assert(self.buf@ =~= b0 + data@.take(i as int));
            }
            assert(data@.take(data@.len() as int) =~= data@);
            assert(self.accepted() =~= old(self).accepted() + data@);
            Ok(data.len())
        }
    }

    /// Flush the buffer, then the inner writer.
    fn flush(&mut self) -> (r: Result<(), Error>)
        ensures
            r is Ok ==> final(self).buf@.len() == 0 && final(self).inner.accepted() == old(self).accepted(),
    {
        match self.flush_buf() {
            Ok(()) => {},
            Err(e) => {
                return Err(e);
            },
        }
        assert(self.inner.accepted() + self.buf@ =~= old(self).inner.accepted() + old(self).buf@);
        match self.inner.flush() {
            Ok(()) => Ok(()),
            Err(e) => {
                self.err = Ghost(Some(e));
                Err(e)
            },
        }
    }
}

} // verus!
