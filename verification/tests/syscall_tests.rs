use fullrust::syscall::{from_ret, r, Errno};

#[test]
fn from_ret_success_value() {
    assert_eq!(from_ret(3), Ok(3));
}

#[test]
fn from_ret_error_value() {
    assert_eq!(from_ret(usize::MAX), Err(Errno(1)));
    assert_eq!(from_ret(usize::MAX - 4094), Err(Errno(4095)));
}

#[test]
fn r_matches_from_ret() {
    assert_eq!(r(0), Ok(0));
    assert_eq!(r(usize::MAX - 1), Err(Errno(2)));
    // The first value outside the error range is an ordinary result.
    assert_eq!(r(usize::MAX - 4095), Ok(usize::MAX - 4095));
}
