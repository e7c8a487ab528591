use fullrust::ffi::{OsStr, OsString};
use fullrust::os_ext::{OsStrExt, OsStringExt};
use fullrust::path::{Path, PathBuf};

#[test]
fn file_name_cases() {
    assert_eq!(Path::new("/usr/lib/libc.so").file_name().map(|o| o.inner), Some("libc.so"));
    assert_eq!(Path::new("dir/").file_name().map(|o| o.inner), Some("dir"));
    assert_eq!(Path::new("plain").file_name().map(|o| o.inner), Some("plain"));
    assert!(Path::new("/").file_name().is_none());
    assert!(Path::new("").file_name().is_none());
}

#[test]
fn parent_cases() {
    assert_eq!(Path::new("/usr/lib").parent().map(|p| p.inner), Some("/usr"));
    assert_eq!(Path::new("/usr").parent().map(|p| p.inner), Some("/"));
    assert_eq!(Path::new("a/b/").parent().map(|p| p.inner), Some("a"));
    assert!(Path::new("a").parent().is_none());
    assert!(Path::new("/").parent().is_none());
}

#[test]
fn extension_cases() {
    assert_eq!(Path::new("x/lib.rlib").extension().map(|o| o.inner), Some("rlib"));
    assert_eq!(Path::new("a.tar.gz").extension().map(|o| o.inner), Some("gz"));
    assert!(Path::new(".bashrc").extension().is_none());
    assert!(Path::new("Makefile").extension().is_none());
}

#[test]
fn join_push_pop() {
    assert_eq!(Path::new("/tmp").join("x").inner, "/tmp/x");
    assert_eq!(Path::new("/tmp/").join("x").inner, "/tmp/x");
    assert_eq!(Path::new("").join("x").inner, "x");
    assert_eq!(Path::new("/tmp").join("/etc").inner, "/etc");
    let mut p = PathBuf::from("/home/u");
    p.push(".cache/cargo-fullrust");
    assert_eq!(p.display(), "/home/u/.cache/cargo-fullrust");
    assert!(p.pop());
    assert_eq!(p.display(), "/home/u/.cache");
    let mut r = PathBuf::from("/");
    assert!(!r.pop());
    assert_eq!(r.display(), "/");
    let mut e = PathBuf::new();
    assert!(!e.pop());
}

#[test]
fn join_then_file_name_gives_component() {
    let j = Path::new("/var/log").join("syslog");
    assert_eq!(j.as_path().file_name().map(|o| o.inner), Some("syslog"));
    let mut b = PathBuf::from("/var/log");
    b.push("syslog");
    assert!(b.pop());
    assert_eq!(b.display(), "/var/log");
}

#[test]
fn path_conversions() {
    let p = Path::new("a/b");
    assert_eq!(p.to_str(), Some("a/b"));
    assert_eq!(p.to_string_lossy(), "a/b");
    assert_eq!(p.as_os_str().inner, "a/b");
    assert_eq!(p.to_path_buf().display(), "a/b");
    assert_eq!(p.display(), "a/b");
    assert!(!p.is_empty());
    assert!(Path::new("").is_empty());
    let b = PathBuf::from_string(String::from("x/y"));
    assert_eq!(b.as_path().inner, "x/y");
    assert_eq!(b.into_os_string().into_string().ok(), Some(String::from("x/y")));
}

#[test]
fn os_strings() {
    let s = OsStr::new("héllo");
    assert_eq!(s.to_str(), Some("héllo"));
    assert_eq!(s.to_string_lossy(), "héllo");
    assert_eq!(s.len(), 6);
    assert!(!s.is_empty());
    assert_eq!(s.as_bytes(), "héllo".as_bytes());
    assert_eq!(OsStrExt::as_bytes(&s), "héllo".as_bytes());
    let mut o = OsString::new();
    assert_eq!(o.to_str(), Some(""));
    o.push("ab");
    o.push("c");
    assert_eq!(o.as_os_str().inner, "abc");
    assert_eq!(OsString::from("q").to_str(), Some("q"));
    assert_eq!(s.to_os_string().to_str(), Some("héllo"));
}

#[test]
fn os_string_bytes() {
    let o = OsString::from_vec(b"abc".to_vec());
    assert_eq!(o.to_str(), Some("abc"));
    let bad = OsString::from_vec(vec![0xff, 0xfe]);
    assert_eq!(bad.to_str(), Some(""));
    assert_eq!(OsString::from("zz").into_vec(), b"zz".to_vec());
}
