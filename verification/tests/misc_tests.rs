use fullrust::fd::{fill_step, stderr as fd_stderr, stdin as fd_stdin, stdout as fd_stdout, write_all_step, Fd, FillStep, WriteAllStep};
use fullrust::process::{ExitCode, Termination};
use fullrust::sock_opts::{
    from_timeval, into_secs, into_timeval, is_nonblocking, poll_wait_ms, timeval_of, unix_sockaddr, with_nonblocking,
    RecvFlags,
};
use fullrust::path::Path;
use fullrust::io_error::ErrorKind;
use fullrust::stdio::{stderr, stdin, stdout, Stderr, StderrLock, Stdin, StdinLock, Stdout, StdoutLock};
use fullrust::syscall::Errno;
use fullrust::time::Duration;

#[test]
fn timeouts_as_timevals() {
    assert_eq!(timeval_of(None), (0, 0));
    assert_eq!(timeval_of(Some(Duration::new(5, 250_000_999))), (5, 250_000));
    assert_eq!(into_timeval(Some(Duration::new(u64::MAX, 0))), (i64::MAX, 0));
    assert_eq!(into_timeval(Some(Duration::new(1, 1_000))), (1, 1));
    assert_eq!(from_timeval(0, 0), None);
    assert_eq!(from_timeval(3, 500), Some(Duration::new(3, 500_000)));
    assert_eq!(into_secs(Duration::new(10, 999)), 10);
    assert_eq!(into_secs(Duration::new(1 << 40, 0)), i32::MAX);
}

#[test]
fn nonblocking_flags() {
    assert_eq!(with_nonblocking(0o2, true), 0o4002);
    assert_eq!(with_nonblocking(0o4002, false), 0o2);
    assert_eq!(with_nonblocking(0o4002, true), 0o4002);
    assert!(is_nonblocking(0o4000));
    assert!(!is_nonblocking(0o2));
}

#[test]
fn receive_flags() {
    assert!(RecvFlags(0x80).is_end_of_record());
    assert!(!RecvFlags(0x80).is_out_of_band());
    assert!(RecvFlags(0x81).is_out_of_band());
    assert!(!RecvFlags(0).is_end_of_record());
}

#[test]
fn unix_addresses() {
    let (v, len) = unix_sockaddr(&Path::new("/tmp/s")).ok().unwrap();
    assert_eq!(v.len(), 128);
    assert_eq!(&v[0..8], &[1, 0, b'/', b't', b'm', b'p', b'/', b's']);
    assert_eq!(v[8], 0);
    assert_eq!(len, 2 + 6 + 1);
    let (_, empty_len) = unix_sockaddr(&Path::new("")).ok().unwrap();
    assert_eq!(empty_len, 2);
    let abstract_name = "\0abc";
    let (a, alen) = unix_sockaddr(&Path::new(abstract_name)).ok().unwrap();
    assert_eq!(alen, 2 + 4);
    assert_eq!(&a[2..6], b"\0abc");
    let long = "x".repeat(108);
    assert_eq!(unix_sockaddr(&Path::new(&long)).err().unwrap().kind(), ErrorKind::InvalidInput);
    let fits = "x".repeat(107);
    assert!(unix_sockaddr(&Path::new(&fits)).is_ok());
    let long_abstract = format!("\0{}", "y".repeat(107));
    assert!(unix_sockaddr(&Path::new(&long_abstract)).is_ok());
}

#[test]
fn connect_wait_times() {
    let t = Duration::new(2, 0);
    assert_eq!(poll_wait_ms(t, Duration::new(0, 500_000_000)), Some(1500));
    assert_eq!(poll_wait_ms(t, Duration::new(1, 999_999_900)), Some(1));
    assert_eq!(poll_wait_ms(t, Duration::new(2, 0)), None);
    assert_eq!(poll_wait_ms(t, Duration::new(3, 0)), None);
    assert_eq!(poll_wait_ms(Duration::new(u64::MAX, 0), Duration::zero()), Some(i32::MAX));
}

#[test]
fn exit_codes() {
    assert_eq!(().report(), 0);
    assert_eq!(7i32.report(), 7);
    assert_eq!(ExitCode::success().report(), 0);
    assert_eq!(ExitCode::failure().report(), 1);
    let ok: Result<i32, String> = Ok(3);
    assert_eq!(ok.report(), 3);
    let err: Result<(), String> = Err(String::from("boom"));
    assert_eq!(err.report(), 1);
}

#[test]
fn raw_descriptors() {
    assert_eq!(fd_stdin(), Fd(0));
    assert_eq!(fd_stdout(), Fd(1));
    assert_eq!(fd_stderr(), Fd(2));
    match write_all_step(10, 0, Ok(4)) {
        WriteAllStep::Continue(d) => assert_eq!(d, 4),
        other => panic!("{:?}", other),
    }
    match write_all_step(10, 4, Ok(6)) {
        WriteAllStep::Finish(r) => assert_eq!(r, Ok(10)),
        other => panic!("{:?}", other),
    }
    match write_all_step(10, 4, Ok(0)) {
        WriteAllStep::Finish(r) => assert_eq!(r, Err(Errno(5))),
        other => panic!("{:?}", other),
    }
    match write_all_step(10, 4, Err(Errno(32))) {
        WriteAllStep::Finish(r) => assert_eq!(r, Err(Errno(32))),
        other => panic!("{:?}", other),
    }
}

#[test]
fn standard_stream_handles() {
    let i: Stdin = stdin();
    let _l: StdinLock = i.lock();
    let o: Stdout = stdout();
    let _ol: StdoutLock = o.lock();
    let e: Stderr = stderr();
    let _el: StderrLock = e.lock();
}

#[test]
fn random_fill_steps() {
    assert_eq!(fill_step(16, 16), FillStep::Continue(0));
    assert_eq!(fill_step(16, 5), FillStep::Continue(11));
    assert_eq!(fill_step(16, 17), FillStep::Unexpected);
    assert_eq!(fill_step(16, 0), FillStep::Unexpected);
    assert_eq!(fill_step(16, -4), FillStep::Retry);
    assert_eq!(fill_step(16, -38), FillStep::Fail(38));
    assert_eq!(fill_step(16, -(1isize << 32)), FillStep::Unexpected);
}
