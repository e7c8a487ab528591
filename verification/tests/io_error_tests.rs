use fullrust::io_error::{errno_kind, Error, ErrorKind};
use fullrust::syscall::Errno;

#[test]
fn errno_kind_table() {
    assert_eq!(errno_kind(2), ErrorKind::NotFound);
    assert_eq!(errno_kind(1), ErrorKind::PermissionDenied);
    assert_eq!(errno_kind(13), ErrorKind::PermissionDenied);
    assert_eq!(errno_kind(111), ErrorKind::ConnectionRefused);
    assert_eq!(errno_kind(104), ErrorKind::ConnectionReset);
    assert_eq!(errno_kind(103), ErrorKind::ConnectionAborted);
    assert_eq!(errno_kind(107), ErrorKind::NotConnected);
    assert_eq!(errno_kind(98), ErrorKind::AddrInUse);
    assert_eq!(errno_kind(99), ErrorKind::AddrNotAvailable);
    assert_eq!(errno_kind(32), ErrorKind::BrokenPipe);
    assert_eq!(errno_kind(17), ErrorKind::AlreadyExists);
    assert_eq!(errno_kind(11), ErrorKind::WouldBlock);
    assert_eq!(errno_kind(22), ErrorKind::InvalidInput);
    assert_eq!(errno_kind(110), ErrorKind::TimedOut);
    assert_eq!(errno_kind(4), ErrorKind::Interrupted);
    assert_eq!(errno_kind(12), ErrorKind::OutOfMemory);
    assert_eq!(errno_kind(9), ErrorKind::Other);
    assert_eq!(errno_kind(-1), ErrorKind::Other);
}

#[test]
fn error_kind_descriptions() {
    assert_eq!(ErrorKind::NotFound.as_str(), "entity not found");
    assert_eq!(ErrorKind::UnexpectedEof.as_str(), "unexpected end of file");
    assert_eq!(ErrorKind::WriteZero.as_str(), "write zero");
    assert_eq!(ErrorKind::Other.as_str(), "other error");
    assert_eq!(ErrorKind::InvalidInput.as_str(), "invalid input parameter");
}

#[test]
fn os_error_kind_and_code() {
    let e = Error::from_raw_os_error(2);
    assert_eq!(e.kind(), ErrorKind::NotFound);
    assert_eq!(e.raw_os_error(), Some(2));
    let e2 = Error::from_errno(Errno(4));
    assert_eq!(e2.kind(), ErrorKind::Interrupted);
    assert_eq!(e2.raw_os_error(), Some(4));
}

#[test]
fn simple_and_custom_errors() {
    let e = Error::from_kind(ErrorKind::WouldBlock);
    assert_eq!(e.kind(), ErrorKind::WouldBlock);
    assert_eq!(e.raw_os_error(), None);
    let c = Error::new(ErrorKind::InvalidData, "bad DNS response");
    assert_eq!(c.kind(), ErrorKind::InvalidData);
    assert_eq!(c.raw_os_error(), None);
}

#[test]
fn error_display_text() {
    assert_eq!(Error::from_raw_os_error(2).to_string(), "entity not found (os error 2)");
    assert_eq!(Error::from_raw_os_error(-7).to_string(), "other error (os error -7)");
    assert_eq!(Error::from_raw_os_error(110).to_string(), "timed out (os error 110)");
    assert_eq!(Error::from_kind(ErrorKind::BrokenPipe).to_string(), "broken pipe");
    assert_eq!(Error::new(ErrorKind::Other, "missing port").to_string(), "missing port");
}
