//! The values that socket options and socket calls are given or give back:
//! timeouts as `timeval`s and whole seconds, the non-blocking file flag,
//! receive flags, `AF_UNIX` addresses, and the wait of a connect with a
//! timeout.
use vstd::prelude::*;
use vstd::string::StringSliceAdditionalSpecFns;
use crate::time::{Duration, NANOS_PER_SEC};
use crate::io_error::{Error, ErrorKind, Repr};
use crate::path::Path;

verus! {

/// The timeout a socket option is set to, as `timeval` seconds and
/// microseconds: `(0, 0)` for none, otherwise the whole seconds (passed on
/// as the same 64 bits, read as signed) and the microseconds of the rest.
pub fn timeval_of(dur: Option<Duration>) -> (tv: (i64, i64))
    ensures
        match dur {
            Some(d) => tv.0 == d.secs as i64 && tv.1 == (d.nanos / 1000) as i64,
            None => tv.0 == 0 && tv.1 == 0,
        },
{
    match dur {
        Some(d) => (d.as_secs() as i64, d.subsec_micros() as i64),
        None => (0, 0),
    }
}

/// Like `timeval_of`, with the seconds capped at `i64::MAX`.
pub fn into_timeval(dur: Option<Duration>) -> (tv: (i64, i64))
    ensures
        match dur {
            Some(d) => tv.0 == (if d.secs > i64::MAX { i64::MAX as int } else { d.secs as int })
                && tv.1 == (d.nanos / 1000) as i64,
            None => tv.0 == 0 && tv.1 == 0,
        },
{
    match dur {
        Some(d) => {
            let s: i64 = if d.as_secs() > (i64::MAX as u64) { i64::MAX } else { d.as_secs() as i64 };
            (s, d.subsec_micros() as i64)
        },
        None => (0, 0),
    }
}

/// The timeout a `timeval` read back from a socket option stands for: none
/// for `(0, 0)`, otherwise the seconds (the same 64 bits read as unsigned)
/// and the microseconds as nanoseconds.
pub fn from_timeval(tv_sec: i64, tv_usec: i64) -> (d: Option<Duration>)
    requires
        0 <= tv_usec < 1_000_000,
    ensures
        match d {
            None => tv_sec == 0 && tv_usec == 0,
            Some(d) => !(tv_sec == 0 && tv_usec == 0) && d.wf() && d.secs == tv_sec as u64
                && d.nanos == tv_usec * 1000,
        },
{
    if tv_sec == 0 && tv_usec == 0 {
        None
    } else {
        let nanos: u32 = (tv_usec as u32) * 1000;
        Some(Duration { secs: tv_sec as u64, nanos })
    }
}

/// A span in whole seconds, capped at `i32::MAX`.
pub fn into_secs(d: Duration) -> (s: i32)
    ensures
        s == if d.secs > i32::MAX { i32::MAX as int } else { d.secs as int },
{
    if d.as_secs() > (i32::MAX as u64) { i32::MAX } else { d.as_secs() as i32 }
}

/// The `O_NONBLOCK` file status flag.
pub const O_NONBLOCK: i32 = 0o4000;

/// The file status flags with `O_NONBLOCK` set or cleared and every other
/// flag left as it was.
pub fn with_nonblocking(flags: i32, nonblocking: bool) -> (r: i32)
    ensures
        (r & O_NONBLOCK != 0) == nonblocking,
        r & !O_NONBLOCK == flags & !O_NONBLOCK,
{
    let r = if nonblocking { flags | O_NONBLOCK } else { flags & !O_NONBLOCK };
    assert(nonblocking ==> (flags | 0o4000i32) & 0o4000i32 != 0) by (bit_vector);
    assert((flags | 0o4000i32) & !0o4000i32 == flags & !0o4000i32) by (bit_vector);
    assert((flags & !0o4000i32) & 0o4000i32 == 0) by (bit_vector);
    assert((flags & !0o4000i32) & !0o4000i32 == flags & !0o4000i32) by (bit_vector);
    r
}

/// Whether the file status flags have `O_NONBLOCK` set.
pub fn is_nonblocking(flags: i32) -> (b: bool)
    ensures
        b == (flags & O_NONBLOCK != 0),
{
    flags & O_NONBLOCK != 0
}

/// `MSG_OOB`: out-of-band data.
pub const MSG_OOB: i32 = 1;

/// `MSG_EOR`: end of record.
pub const MSG_EOR: i32 = 0x80;

/// The flags a received message came back with.
#[derive(Clone, Copy, PartialEq, Eq, Debug, Structural)]
pub struct RecvFlags(pub i32);

impl RecvFlags {
    /// Whether the message ends a record (`MSG_EOR`).
    pub fn is_end_of_record(self) -> (b: bool)
        ensures
            b == (self.0 & MSG_EOR != 0),
    {
        self.0 & MSG_EOR != 0
    }

    /// Whether the message holds out-of-band data (`MSG_OOB`).
    pub fn is_out_of_band(self) -> (b: bool)
        ensures
            b == (self.0 & MSG_OOB != 0),
    {
        self.0 & MSG_OOB != 0
    }
}

/// The address family of `AF_UNIX` addresses.
pub const AF_UNIX: u16 = 1;

/// The room for a path in an `AF_UNIX` address.
pub const SUN_PATH_LEN: usize = 108;

/// The size of the address storage an `AF_UNIX` address is built in.
pub const SOCKADDR_STORAGE_LEN: usize = 128;

/// Whether a path is too long for an `AF_UNIX` address: a path name needs
/// room for its terminating NUL, an abstract name (one that starts with
/// NUL) does not.
pub open spec fn unix_path_too_long(b: Seq<u8>) -> bool {
    if b.len() == 0 {
        false
    } else if b[0] == 0u8 {
        b.len() > SUN_PATH_LEN
    } else {
        b.len() >= SUN_PATH_LEN
    }
}

/// The length an `AF_UNIX` address with path bytes `b` is passed with: the
/// family, the path, and the terminating NUL of a path name.
pub open spec fn unix_addr_len(b: Seq<u8>) -> int {
    2 + b.len() + if b.len() > 0 && b[0] != 0u8 { 1int } else { 0int }
}

/// An `AF_UNIX` address for `path` in a zeroed address storage, with the
/// length to pass it with; a path that does not fit is `InvalidInput`.
pub fn unix_sockaddr(path: &Path) -> (r: Result<(Vec<u8>, usize), Error>)
    ensures
        match r {
            Ok((v, len)) => {
                let b = path.inner.spec_bytes();
                &&& !unix_path_too_long(b)
                &&& v@.len() == SOCKADDR_STORAGE_LEN
                &&& v@[0] == 1u8 && v@[1] == 0u8
                &&& v@.subrange(2, 2 + b.len() as int) == b
                &&& forall|j: int| 2 + b.len() <= j < SOCKADDR_STORAGE_LEN ==> #[trigger] v@[j] == 0u8
                &&& len == unix_addr_len(b)
            },
            Err(e) => unix_path_too_long(path.inner.spec_bytes()) && e.kind_spec() == ErrorKind::InvalidInput,
        },
{
    let b = path.inner.as_bytes();
    let too_long = if b.len() == 0 {
        false
    } else if b[0] == 0 {
        b.len() > SUN_PATH_LEN
    } else {
        b.len() >= SUN_PATH_LEN
    };
    if too_long {
        return Err(Error::new(ErrorKind::InvalidInput, "path must be shorter than SUN_LEN"));
    }
    let mut v: Vec<u8> = vec![0u8; SOCKADDR_STORAGE_LEN];
    v.set(0, 1u8);
    let mut i: usize = 0;
    while i < b.len()
        invariant
            i <= b@.len(),
            b@.len() <= SUN_PATH_LEN,
            v@.len() == SOCKADDR_STORAGE_LEN,
            v@[0] == 1u8 && v@[1] == 0u8,
            forall|j: int| 0 <= j < i ==> #[trigger] v@[2 + j] == b@[j],
            forall|j: int| 2 + i <= j < SOCKADDR_STORAGE_LEN ==> #[trigger] v@[j] == 0u8,
        decreases b@.len() - i,
    {
        v.set(2 + i, b[i]);
        i += 1;
    }
    assert forall|k: int| 0 <= k < b@.len() implies #[trigger] v@.subrange(2, 2 + b@.len() as int)[k] == b@[k] by {
        assert(v@[2 + k] == b@[k]);
    }
    assert(v@.subrange(2, 2 + b@.len() as int) =~= b@);
    let len = 2 + b.len() + if b.len() > 0 && b[0] != 0 { 1 } else { 0 };
    Ok((v, len))
}

/// How long a connect with a timeout waits next: nothing once the time is
/// up, otherwise the rest of the timeout in milliseconds, at least 1 and at
/// most `i32::MAX`.
pub fn poll_wait_ms(timeout: Duration, elapsed: Duration) -> (r: Option<i32>)
    requires
        timeout.wf(),
        elapsed.wf(),
    ensures
        match r {
            None => elapsed.total() >= timeout.total(),
            Some(ms) => elapsed.total() < timeout.total() && ms == ({
                let m = (timeout.total() - elapsed.total()) / 1_000_000;
                if m < 1 { 1 } else if m > i32::MAX { i32::MAX as int } else { m }
            }),
        },
{
    if elapsed.secs > timeout.secs || (elapsed.secs == timeout.secs && elapsed.nanos >= timeout.nanos) {
        return None;
    }
    let rest = match timeout.checked_sub(elapsed) {
        Some(d) => d,
        None => return None,
    };
    let ghost m = (timeout.total() - elapsed.total()) / 1_000_000;
    assert(rest.total() == rest.secs * 1_000_000_000 + rest.nanos);
    if rest.secs >= 2_147_484 {
        assert(m > i32::MAX) by (nonlinear_arith)
            requires
                m == (rest.secs * 1_000_000_000 + rest.nanos) / 1_000_000,
                rest.secs >= 2_147_484,
                rest.nanos >= 0,
        ;
        return Some(i32::MAX);
    }
    let ms: u64 = rest.secs * 1000 + (rest.nanos / 1_000_000) as u64;
    assert(ms == m) by (nonlinear_arith)
        requires
            m == (rest.secs * 1_000_000_000 + rest.nanos) / 1_000_000,
            ms == rest.secs * 1000 + rest.nanos / 1_000_000,
            0 <= rest.nanos < 1_000_000_000,
            rest.secs >= 0,
    ;
    if ms < 1 {
        Some(1)
    } else if ms > (i32::MAX as u64) {
        Some(i32::MAX)
    } else {
        Some(ms as i32)
    }
}

/// `poll` event: the socket can be written (a connect has finished).
pub const POLLOUT: i16 = 4;
/// `poll` event: an error is pending on the socket.
pub const POLLERR: i16 = 8;
/// `poll` event: the peer hung up.
pub const POLLHUP: i16 = 16;

/// What a connect with a timeout does after one `poll` of the socket.
#[derive(Debug)]
pub enum ConnectPoll {
    /// The time ran out: fail with `TimedOut`.
    TimedOut,
    /// The connect failed: fetch the socket's pending error.
    TakeError,
    /// The connect succeeded.
    Connected,
    /// The poll was interrupted: poll again.
    Retry,
    /// Stop with this error of the poll itself.
    Fail(Error),
}

/// The step after `poll` returned `r` with the events `revents`: no ready
/// socket means the time ran out; a hang-up or error event means the
/// connect failed; any other readiness means it succeeded; an interrupted
/// poll is retried and another failed poll stops.
pub fn connect_poll_outcome(r: Result<usize, Error>, revents: i16) -> (a: ConnectPoll)
    ensures
        r matches Ok(n) && n == 0 ==> a is TimedOut,
        r matches Ok(n) && n > 0 ==> (a is TakeError <==> revents & (POLLHUP | POLLERR) != 0)
            && (revents & (POLLHUP | POLLERR) == 0 ==> a is Connected),
        r matches Err(e) ==> (e.kind_spec() == ErrorKind::Interrupted ==> a is Retry)
            && (e.kind_spec() != ErrorKind::Interrupted ==> a == ConnectPoll::Fail(e)),
{
    match r {
        Ok(0) => ConnectPoll::TimedOut,
        Ok(_) => {
            if revents & (POLLHUP | POLLERR) != 0 {
                ConnectPoll::TakeError
            } else {
                ConnectPoll::Connected
            }
        },
        Err(e) => {
            if e.kind() == ErrorKind::Interrupted {
                ConnectPoll::Retry
            } else {
                ConnectPoll::Fail(e)
            }
        },
    }
}

/// The error a failed connect ends with, given what fetching the socket's
/// pending error gave: that error, or the error of the fetch itself, or,
/// when no error was pending, an `Other` error saying so.
pub fn connect_error_of(r: Result<Option<Error>, Error>) -> (e: Error)
    ensures
        r matches Ok(Some(x)) ==> e == x,
        r matches Err(x) ==> e == x,
        r matches Ok(None) ==> (e.repr matches Repr::Custom(k, m) && k == ErrorKind::Other
            && m@ == "no error set after POLLHUP"@),
{
    match r {
        Ok(Some(x)) => x,
        Err(x) => x,
        Ok(None) => Error::new(ErrorKind::Other, "no error set after POLLHUP"),
    }
}

} // verus!
