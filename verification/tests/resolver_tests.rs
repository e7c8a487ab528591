use fullrust::io_error::{Error, ErrorKind};
use fullrust::net_addr::{IpAddr, Ipv4Addr, Ipv6Addr};
use fullrust::resolver::{
    combine_answers, eq_ignore_ascii_case, hosts_lookup, lookup_local, resolv_conf_nameserver,
    rustc_field, split_host_port, starts_with,
};

fn cs(s: &str) -> Vec<char> {
    s.chars().collect()
}

const HOSTS: &str = "# static table\n127.0.0.1 localhost\n::1 localhost ip6-localhost\n10.1.2.3 Build.Example build # lab box\nnot-an-ip localhost\n\n";

#[test]
fn hosts_file_lookup() {
    assert_eq!(
        hosts_lookup(HOSTS, "localhost"),
        vec![IpAddr::V4(Ipv4Addr::new(127, 0, 0, 1)), IpAddr::V6(Ipv6Addr::localhost())]
    );
    assert_eq!(hosts_lookup(HOSTS, "BUILD.example"), vec![IpAddr::V4(Ipv4Addr::new(10, 1, 2, 3))]);
    assert!(hosts_lookup(HOSTS, "lab").is_empty());
    assert!(hosts_lookup(HOSTS, "missing").is_empty());
}

#[test]
fn nameserver_from_resolv_conf() {
    let text = "search lan\n# nameserver 9.9.9.9\nnameserver   192.168.1.1  \nnameserver 8.8.8.8\n";
    assert_eq!(resolv_conf_nameserver(text), Some(IpAddr::V4(Ipv4Addr::new(192, 168, 1, 1))));
    assert_eq!(resolv_conf_nameserver("nameserver bogus\nnameserver ::1\n"), Some(IpAddr::V6(Ipv6Addr::localhost())));
    assert_eq!(resolv_conf_nameserver("options ndots:1\n"), None);
}

#[test]
fn rustc_version_fields() {
    let out = "rustc 1.80.0-nightly\nbinary: rustc\nhost: x86_64-unknown-linux-gnu\nrelease: 1.80.0-nightly\n";
    assert_eq!(rustc_field(out, "host"), Some("x86_64-unknown-linux-gnu".to_string()));
    assert_eq!(rustc_field(out, "release"), Some("1.80.0-nightly".to_string()));
    assert_eq!(rustc_field(out, "commit-hash"), None);
}

#[test]
fn host_port_splitting() {
    let (h, p) = split_host_port("example.com:443").ok().unwrap();
    assert_eq!((h.as_str(), p), ("example.com", 443));
    let (h6, p6) = split_host_port("[fe80::1]:22").ok().unwrap();
    assert_eq!((h6.as_str(), p6), ("fe80::1", 22));
    let (hl, pl) = split_host_port("a:b:8080").ok().unwrap();
    assert_eq!((hl.as_str(), pl), ("a:b", 8080));
    assert_eq!(split_host_port("example.com").err().unwrap().kind(), ErrorKind::InvalidInput);
    assert_eq!(split_host_port("[::1]").err().unwrap().kind(), ErrorKind::InvalidInput);
    assert_eq!(split_host_port("host:99999").err().unwrap().kind(), ErrorKind::InvalidInput);
    assert_eq!(split_host_port("host:").err().unwrap().kind(), ErrorKind::InvalidInput);
}

#[test]
fn local_lookup_decisions() {
    assert_eq!(lookup_local("1.2.3.4", None), Some(vec![IpAddr::V4(Ipv4Addr::new(1, 2, 3, 4))]));
    assert_eq!(lookup_local("localhost", Some(HOSTS)).map(|v| v.len()), Some(2));
    assert_eq!(lookup_local("missing", Some(HOSTS)), None);
    assert_eq!(lookup_local("localhost", None), None);
}

#[test]
fn combining_query_answers() {
    let a = vec![IpAddr::V4(Ipv4Addr::new(1, 1, 1, 1))];
    let aaaa = vec![IpAddr::V6(Ipv6Addr::localhost())];
    let both = combine_answers(Ok(a.clone()), Ok(aaaa.clone())).ok().unwrap();
    assert_eq!(both, vec![a[0], aaaa[0]]);
    let only6 = combine_answers(Err(Error::from_kind(ErrorKind::TimedOut)), Ok(aaaa.clone())).ok().unwrap();
    assert_eq!(only6, aaaa);
    let none = combine_answers(Ok(vec![]), Err(Error::from_kind(ErrorKind::TimedOut)));
    assert_eq!(none.err().unwrap().kind(), ErrorKind::NotFound);
}

#[test]
fn case_insensitive_helpers() {
    assert!(eq_ignore_ascii_case(&cs("LocalHost"), &cs("localhost")));
    assert!(!eq_ignore_ascii_case(&cs("localhost"), &cs("localhos")));
    assert!(starts_with(&cs("nameserver 1"), &cs("nameserver")));
    assert!(!starts_with(&cs("name"), &cs("nameserver")));
}
