//! Raw file descriptors of the runtime: the standard three, the decision
//! `write_all` takes after each `write`, and the one filling a buffer from
//! `getrandom` takes after each call.
use vstd::prelude::*;
use crate::syscall::Errno;

verus! {

/// Standard input's descriptor.
pub const STDIN: i32 = 0;
/// Standard output's descriptor.
pub const STDOUT: i32 = 1;
/// Standard error's descriptor.
pub const STDERR: i32 = 2;

/// `EIO`, reported when a write makes no progress.
pub const EIO: i32 = 5;

/// A thin wrapper over a raw file descriptor.
#[derive(Clone, Copy, PartialEq, Eq, Debug, Structural)]
pub struct Fd(pub i32);

/// Standard output.
pub fn stdout() -> (f: Fd)
    ensures
        f == Fd(STDOUT),
{
    Fd(STDOUT)
}

/// Standard error.
pub fn stderr() -> (f: Fd)
    ensures
        f == Fd(STDERR),
{
    Fd(STDERR)
}

/// Standard input.
pub fn stdin() -> (f: Fd)
    ensures
        f == Fd(STDIN),
{
    Fd(STDIN)
}

/// What `write_all` does after one `write` of the rest of its buffer.
#[derive(Debug)]
pub enum WriteAllStep {
    /// Write again from this offset.
    Continue(usize),
    /// Stop with this result: the number of bytes written, or the error.
    Finish(Result<usize, Errno>),
}

/// The next step of writing a buffer of `len` bytes of which `done` are
/// written, given what the last `write` (of the bytes from `done` on)
/// returned: a write of nothing is `EIO`, an error stops, and the buffer is
/// done, with its length as the count written, when its last byte is
/// written.
pub fn write_all_step(len: usize, done: usize, r: Result<usize, Errno>) -> (s: WriteAllStep)
    requires
        done < len,
        r matches Ok(n) ==> n <= len - done,
    ensures
        match r {
            Ok(0) => s == WriteAllStep::Finish(Err(Errno(EIO))),
            Ok(n) => if done + n == len {
                s == WriteAllStep::Finish(Ok(len))
            } else {
                s == WriteAllStep::Continue((done + n) as usize)
            },
            Err(e) => s == WriteAllStep::Finish(Err(e)),
        },
        s matches WriteAllStep::Continue(d) ==> done < d < len,
{
    match r {
        Ok(0) => WriteAllStep::Finish(Err(Errno(EIO))),
        Ok(n) => {
            if done + n == len {
                WriteAllStep::Finish(Ok(len))
            } else {
                WriteAllStep::Continue(done + n)
            }
        },
        Err(e) => WriteAllStep::Finish(Err(e)),
    }
}


/// `EINTR`: the call was interrupted and can be made again.
pub const EINTR: u32 = 4;

/// What filling a buffer with random bytes does after one `getrandom` call.
#[derive(Clone, Copy, PartialEq, Eq, Debug, Structural)]
pub enum FillStep {
    /// Call again for this many remaining bytes.
    Continue(usize),
    /// The call was interrupted; call again for the same bytes.
    Retry,
    /// Stop with this error number.
    Fail(u32),
    /// Stop: the kernel reported something it never reports.
    Unexpected,
}

/// The next step of filling `left` more bytes, given what `getrandom`
/// returned: a count of bytes written, or a negated error number (read as
/// its low 32 bits). A count larger than asked, a zero count and an error
/// number of 0 are unexpected; `EINTR` is retried.
pub fn fill_step(left: usize, ret: isize) -> (s: FillStep)
    requires
        left > 0,
        ret != isize::MIN,
    ensures
        ret > 0 && ret <= left ==> s == FillStep::Continue((left - ret) as usize),
        ret > 0 && ret > left ==> s == FillStep::Unexpected,
        ret == 0 ==> s == FillStep::Unexpected,
        ret < 0 ==> ({
            let e = (-ret) as u32;
            if e == EINTR {
                s == FillStep::Retry
            } else if e == 0 {
                s == FillStep::Unexpected
            } else {
                s == FillStep::Fail(e)
            }
        }),
{
    if ret > 0 {
        let n = ret as usize;
        if n > left {
            FillStep::Unexpected
        } else {
            FillStep::Continue(left - n)
        }
    } else if ret < 0 {
        let m: isize = -ret;
        let e = m as u32;
        if e == EINTR {
            FillStep::Retry
        } else if e == 0 {
            FillStep::Unexpected
        } else {
            FillStep::Fail(e)
        }
    } else {
        FillStep::Unexpected
    }
}

} // verus!
