use fullrust::fs_meta::{create_options, open_read_options, stat_to_meta, OpenOptions, Stat};
use fullrust::fs_ops::{c_path, parse_dirents, seek_args, CreateDirAll, DirStep};
use fullrust::io::SeekFrom;
use fullrust::io_error::{Error, ErrorKind};
use fullrust::path::Path;

fn stat(mode: u32, size: i64, mtime: i64, nsec: i64) -> Stat {
    let mut s = Stat::default();
    s.st_mode = mode;
    s.st_size = size;
    s.st_mtime = mtime;
    s.st_mtime_nsec = nsec;
    s.st_uid = 1000;
    s
}

#[test]
fn metadata_from_stat() {
    let m = stat_to_meta(&stat(0o100644, 1234, 1_700_000_000, 42));
    assert!(m.is_file() && !m.is_dir() && !m.is_symlink());
    assert_eq!(m.len(), 1234);
    assert_eq!(m.uid, 1000);
    assert!(m.file_type().is_file());
    assert_eq!(m.permissions().mode(), 0o644);
    assert!(!m.permissions().readonly());
    let t = m.modified().ok().unwrap();
    assert_eq!(t.since_epoch.secs, 1_700_000_000);
    assert_eq!(t.since_epoch.nanos, 42);
    let d = stat_to_meta(&stat(0o040755, 4096, 0, 0));
    assert!(d.is_dir() && d.file_type().is_dir());
    let l = stat_to_meta(&stat(0o120777, 7, 0, 0));
    assert!(l.is_symlink() && l.file_type().is_symlink());
}

#[test]
fn permission_bits() {
    let m = stat_to_meta(&stat(0o100664, 0, 0, 0));
    let mut p = m.permissions();
    p.set_readonly(true);
    assert_eq!(p.mode(), 0o444);
    assert!(p.readonly());
    p.set_readonly(false);
    assert_eq!(p.mode(), 0o644);
    assert!(!p.readonly());
}

#[test]
fn open_flag_words() {
    assert_eq!(open_read_options().open_flags(), 0o2000000);
    assert_eq!(create_options().open_flags(), 0o2000000 | 1 | 0o1000 | 0o100);
    let mut o = OpenOptions::new();
    o.read(true).append(true);
    assert_eq!(o.open_flags(), 2 | 0o2000000 | 0o2000);
    let mut n = OpenOptions::new();
    n.write(true).create_new(true);
    assert_eq!(n.open_flags(), 1 | 0o2000000 | 0o100 | 0o200);
    assert_eq!(OpenOptions::new().mode, 0o666);
    let mut t = OpenOptions::new();
    t.write(true).truncate(true).create(true);
    assert_eq!(t, create_options());
}

#[test]
fn seek_arguments() {
    assert_eq!(seek_args(SeekFrom::Start(10)), (0, 10));
    assert_eq!(seek_args(SeekFrom::Current(-3)), (1, -3));
    assert_eq!(seek_args(SeekFrom::End(0)), (2, 0));
    assert_eq!(seek_args(SeekFrom::Start(u64::MAX)), (0, -1));
}

#[test]
fn nul_terminated_paths() {
    assert_eq!(c_path(&Path::new("/etc/hosts")).ok(), Some(b"/etc/hosts\0".to_vec()));
    assert_eq!(c_path(&Path::new("")).ok(), Some(vec![0u8]));
    assert_eq!(c_path(&Path::new("a\0b")).err().unwrap().kind(), ErrorKind::InvalidInput);
}

fn record(buf: &mut Vec<u8>, name: &[u8], d_type: u8) {
    let reclen = (19 + name.len() + 1 + 7) / 8 * 8;
    let start = buf.len();
    buf.extend_from_slice(&7u64.to_le_bytes());
    buf.extend_from_slice(&0i64.to_le_bytes());
    buf.extend_from_slice(&(reclen as u16).to_le_bytes());
    buf.push(d_type);
    buf.extend_from_slice(name);
    buf.push(0);
    while buf.len() < start + reclen {
        buf.push(0);
    }
}

#[test]
fn directory_records() {
    let mut buf = Vec::new();
    record(&mut buf, b".", 4);
    record(&mut buf, b"..", 4);
    record(&mut buf, b"sub", 4);
    record(&mut buf, b"file.txt", 8);
    let n = buf.len();
    buf.extend_from_slice(&[0xee; 16]);
    let v = parse_dirents(&buf, n);
    assert_eq!(v.len(), 2);
    assert_eq!(v[0].name, b"sub".to_vec());
    assert_eq!(v[0].kind, 4);
    assert_eq!(v[1].name, b"file.txt".to_vec());
    assert_eq!(v[1].kind, 8);
    assert!(parse_dirents(&buf, 0).is_empty());
    assert_eq!(parse_dirents(&buf, n - 1).len(), 1);
}

fn mkdir_target(s: &DirStep) -> Option<String> {
    match s {
        DirStep::Mkdir(p) => Some(p.clone()),
        DirStep::Finish(_) => None,
    }
}

#[test]
fn create_dir_all_walks_up_then_down() {
    let (mut st, first) = CreateDirAll::start(&Path::new("/a/b/c"));
    assert_eq!(mkdir_target(&first).as_deref(), Some("/a/b/c"));
    let s1 = st.step(Err(Error::from_raw_os_error(2)));
    assert_eq!(mkdir_target(&s1).as_deref(), Some("/a/b"));
    let s2 = st.step(Err(Error::from_raw_os_error(2)));
    assert_eq!(mkdir_target(&s2).as_deref(), Some("/a"));
    let s3 = st.step(Ok(()));
    assert_eq!(mkdir_target(&s3).as_deref(), Some("/a/b"));
    let s4 = st.step(Err(Error::from_raw_os_error(17)));
    assert_eq!(mkdir_target(&s4).as_deref(), Some("/a/b/c"));
    match st.step(Ok(())) {
        DirStep::Finish(r) => assert!(r.is_ok()),
        DirStep::Mkdir(_) => panic!("expected the end"),
    }
}

#[test]
fn create_dir_all_stops_on_errors() {
    let (mut st, _) = CreateDirAll::start(&Path::new("rel"));
    match st.step(Err(Error::from_raw_os_error(13))) {
        DirStep::Finish(Err(e)) => assert_eq!(e.kind(), ErrorKind::PermissionDenied),
        _ => panic!("a path without a parent stops"),
    }
    let (mut st2, _) = CreateDirAll::start(&Path::new("x/y"));
    assert_eq!(mkdir_target(&st2.step(Err(Error::from_raw_os_error(2)))).as_deref(), Some("x"));
    assert_eq!(mkdir_target(&st2.step(Ok(()))).as_deref(), Some("x/y"));
    match st2.step(Err(Error::from_raw_os_error(28))) {
        DirStep::Finish(Err(e)) => assert_eq!(e.raw_os_error(), Some(28)),
        _ => panic!("a second failure stops"),
    }
    let (mut st3, _) = CreateDirAll::start(&Path::new("done"));
    match st3.step(Err(Error::from_raw_os_error(17))) {
        DirStep::Finish(r) => assert!(r.is_ok()),
        _ => panic!("an existing directory is fine"),
    }
}
