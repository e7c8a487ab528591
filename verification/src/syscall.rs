//! Decoding raw Linux syscall return values.
use vstd::prelude::*;

verus! {

/// A raw Linux error number (e.g. `2` = `ENOENT`, `9` = `EBADF`).
#[derive(Clone, Copy, PartialEq, Eq, Debug, Structural)]
pub struct Errno(pub i32);

/// The largest error number the kernel reports through a return value.
pub const MAX_ERRNO: usize = 4095;

/// Whether a raw return value, read as a signed word, lies in `[-4095, -1]`.
pub open spec fn is_error_return(ret: usize) -> bool {
    ret > usize::MAX - MAX_ERRNO
}

/// The error number encoded by an error return: `-(ret as isize)`.
pub open spec fn errno_of_return(ret: usize) -> int {
    usize::MAX - ret + 1
}

/// Convert a raw syscall return value into a `Result`.
///
/// Linux signals errors with a return in `[-4095, -1]`, interpreted as
/// `-errno`. Anything else is a successful value.
pub fn from_ret(ret: usize) -> (res: Result<usize, Errno>)
    ensures
        is_error_return(ret) ==> res == Err::<usize, Errno>(Errno(errno_of_return(ret) as i32)),
        !is_error_return(ret) ==> res == Ok::<usize, Errno>(ret),
        is_error_return(ret) ==> 1 <= errno_of_return(ret) <= MAX_ERRNO,
{
    if ret > usize::MAX - MAX_ERRNO {
        let e: usize = usize::MAX - ret + 1;
        Err(Errno(e as i32))
    } else {
        Ok(ret)
    }
}

/// Same decoding as [`from_ret`], under the name the std layer uses.
pub fn r(ret: usize) -> (res: Result<usize, Errno>)
    ensures
        res == from_ret_spec(ret),
{
    from_ret(ret)
}

/// What [`from_ret`] returns, as a spec function.
pub open spec fn from_ret_spec(ret: usize) -> Result<usize, Errno> {
    if is_error_return(ret) {
        Err(Errno(errno_of_return(ret) as i32))
    } else {
        Ok(ret)
    }
}

} // verus!
