use fullrust::allocator::{arena_size, ARENA, PAGE};
use fullrust::fs_ops::{RemoveDirAll, RemoveStep, DT_DIR};
use fullrust::io_error::{Error, ErrorKind};
use fullrust::lines::lines;
use fullrust::path::Path;
use fullrust::sock_opts::{connect_error_of, connect_poll_outcome, ConnectPoll, POLLERR, POLLHUP, POLLOUT};
use fullrust::sync_state::{once_step, OnceAction, INCOMPLETE};

/// One `getdents64` record for `name` of type `kind`, padded to 8 bytes.
fn record(name: &str, kind: u8) -> Vec<u8> {
    let len = (19 + name.len() + 1 + 7) / 8 * 8;
    let mut r = vec![0u8; len];
    r[16] = (len % 256) as u8;
    r[17] = (len / 256) as u8;
    r[18] = kind;
    r[19..19 + name.len()].copy_from_slice(name.as_bytes());
    r
}

fn path_of(s: &RemoveStep) -> String {
    match s {
        RemoveStep::Unlink(p) => format!("unlink {}", p.display()),
        RemoveStep::Descend(p) => format!("descend {}", p.display()),
        RemoveStep::ReadMore => "more".to_string(),
        RemoveStep::Rmdir => "rmdir".to_string(),
        RemoveStep::Fail(e) => format!("fail {:?}", e.kind()),
    }
}

#[test]
fn remove_dir_all_walks_a_batch() {
    let mut buf = Vec::new();
    buf.extend(record(".", DT_DIR));
    buf.extend(record("..", DT_DIR));
    buf.extend(record("a.txt", 8));
    buf.extend(record("sub", DT_DIR));
    let n = buf.len();
    buf.resize(4096, 0);
    let mut st = RemoveDirAll::start(&Path::new("/tmp/x"));
    let s = st.batch(&buf, n);
    assert_eq!(path_of(&s), "unlink /tmp/x/a.txt");
    let s = st.step(Ok(()));
    assert_eq!(path_of(&s), "descend /tmp/x/sub");
    let s = st.step(Ok(()));
    assert_eq!(path_of(&s), "more");
    let s = st.batch(&buf, 0);
    assert_eq!(path_of(&s), "rmdir");
}

#[test]
fn remove_dir_all_stops_at_errors() {
    let mut buf = record("f", 8);
    let n = buf.len();
    buf.resize(64, 0);
    let mut st = RemoveDirAll::start(&Path::new("d"));
    assert_eq!(path_of(&st.batch(&buf, n)), "unlink d/f");
    let s = st.step(Err(Error::from_kind(ErrorKind::PermissionDenied)));
    assert_eq!(path_of(&s), "fail PermissionDenied");
    let s = st.batch(&buf, 65);
    assert_eq!(path_of(&s), "fail InvalidData");
}

#[test]
fn connect_poll_outcomes() {
    assert!(matches!(connect_poll_outcome(Ok(0), 0), ConnectPoll::TimedOut));
    assert!(matches!(connect_poll_outcome(Ok(1), POLLOUT), ConnectPoll::Connected));
    assert!(matches!(connect_poll_outcome(Ok(1), POLLOUT | POLLHUP), ConnectPoll::TakeError));
    assert!(matches!(connect_poll_outcome(Ok(1), POLLERR), ConnectPoll::TakeError));
    assert!(matches!(connect_poll_outcome(Err(Error::from_kind(ErrorKind::Interrupted)), 0), ConnectPoll::Retry));
    match connect_poll_outcome(Err(Error::from_kind(ErrorKind::PermissionDenied)), 0) {
        ConnectPoll::Fail(e) => assert_eq!(e.kind(), ErrorKind::PermissionDenied),
        _ => panic!("expected a failure"),
    }
}

#[test]
fn connect_errors() {
    assert_eq!(connect_error_of(Ok(Some(Error::from_raw_os_error(111)))).kind(), ErrorKind::ConnectionRefused);
    assert_eq!(connect_error_of(Err(Error::from_kind(ErrorKind::Interrupted))).kind(), ErrorKind::Interrupted);
    let e = connect_error_of(Ok(None));
    assert_eq!(e.kind(), ErrorKind::Other);
    assert_eq!(e.to_string(), "no error set after POLLHUP");
}

#[test]
fn final_line_keeps_its_carriage_return() {
    let cs: Vec<char> = "a\r\nbaz\r".chars().collect();
    let got: Vec<String> = lines(&cs).into_iter().map(|l| l.into_iter().collect()).collect();
    assert_eq!(got, vec!["a".to_string(), "baz\r".to_string()]);
}

#[test]
fn large_arenas_round_up_to_pages() {
    assert_eq!(arena_size(ARENA), ARENA);
    assert_eq!(arena_size(ARENA + 1), ARENA + PAGE);
}

#[test]
fn once_never_returns_before_completion() {
    assert_eq!(once_step(INCOMPLETE, false), OnceAction::Wait);
}
