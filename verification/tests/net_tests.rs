use fullrust::net_addr::{
    decode_sockaddr, encode_sockaddr, family_of, shutdown_how, IpAddr, Ipv4Addr, Ipv6Addr,
    Shutdown, SocketAddr, SocketAddrV4, SocketAddrV6,
};
use fullrust::net_parse::{parse_ip_bytes, parse_ipv4_bytes, parse_ipv6_bytes, parse_socket_addr_bytes};

#[test]
fn ipv4_basics() {
    let a = Ipv4Addr::new(127, 0, 0, 1);
    assert_eq!(a.octets(), [127, 0, 0, 1]);
    assert!(a.is_loopback());
    assert!(!a.is_unspecified());
    assert!(Ipv4Addr::unspecified().is_unspecified());
    assert_eq!(Ipv4Addr::localhost(), a);
    assert!(Ipv4Addr::new(127, 9, 9, 9).is_loopback());
    assert!(!Ipv4Addr::new(10, 0, 0, 1).is_loopback());
}

#[test]
fn ipv4_mapped_to_ipv6() {
    let m = Ipv4Addr::new(192, 168, 1, 2).to_ipv6_mapped();
    assert_eq!(m.octets(), [0, 0, 0, 0, 0, 0, 0, 0, 0, 0, 0xff, 0xff, 192, 168, 1, 2]);
    assert_eq!(m.segments(), [0, 0, 0, 0, 0, 0xffff, 0xc0a8, 0x0102]);
}

#[test]
fn ipv6_basics() {
    let l = Ipv6Addr::localhost();
    assert!(l.is_loopback());
    assert_eq!(l.segments(), [0, 0, 0, 0, 0, 0, 0, 1]);
    assert!(!Ipv6Addr::unspecified().is_loopback());
    let o = [0x20, 0x01, 0x0d, 0xb8, 0, 0, 0, 0, 0, 0, 0, 0, 0, 0, 0, 1];
    assert_eq!(Ipv6Addr::from_octets(o).octets(), o);
    assert_eq!(Ipv6Addr::from_octets(o).segments(), [0x2001, 0xdb8, 0, 0, 0, 0, 0, 1]);
}

#[test]
fn ipaddr_family_and_loopback() {
    let v4 = IpAddr::V4(Ipv4Addr::new(1, 2, 3, 4));
    let v6 = IpAddr::V6(Ipv6Addr::localhost());
    assert!(v4.is_ipv4() && !v4.is_ipv6());
    assert!(v6.is_ipv6() && !v6.is_ipv4());
    assert!(!v4.is_loopback());
    assert!(v6.is_loopback());
}

#[test]
fn parse_ipv4_accepts_and_rejects() {
    assert_eq!(parse_ipv4_bytes(b"1.2.3.4"), Some([1, 2, 3, 4]));
    assert_eq!(parse_ipv4_bytes(b"255.255.255.255"), Some([255, 255, 255, 255]));
    assert_eq!(parse_ipv4_bytes(b"256.1.1.1"), None);
    assert_eq!(parse_ipv4_bytes(b"1.2.3"), None);
    assert_eq!(parse_ipv4_bytes(b"1.2.3.4.5"), None);
    assert_eq!(parse_ipv4_bytes(b"1..3.4"), None);
    assert_eq!(parse_ipv4_bytes(b"a.b.c.d"), None);
    assert_eq!(parse_ipv4_bytes(b""), None);
}

#[test]
fn ipv4_from_str() {
    assert_eq!(Ipv4Addr::from_str("10.0.0.1"), Ok(Ipv4Addr::new(10, 0, 0, 1)));
    assert!(Ipv4Addr::from_str("10.0.0.1:80").is_err());
}

#[test]
fn parse_ipv6_forms() {
    let mut lo = [0u8; 16];
    lo[15] = 1;
    assert_eq!(parse_ipv6_bytes(b"::1"), Some(lo));
    assert_eq!(parse_ipv6_bytes(b"::"), Some([0u8; 16]));
    let full = parse_ipv6_bytes(b"2001:db8:0:0:0:0:0:1").unwrap();
    assert_eq!(Ipv6Addr::from_octets(full).segments(), [0x2001, 0xdb8, 0, 0, 0, 0, 0, 1]);
    let short = parse_ipv6_bytes(b"2001:db8::1").unwrap();
    assert_eq!(short, full);
    let tail = parse_ipv6_bytes(b"fe80::").unwrap();
    assert_eq!(Ipv6Addr::from_octets(tail).segments(), [0xfe80, 0, 0, 0, 0, 0, 0, 0]);
    assert_eq!(parse_ipv6_bytes(b"1:2:3:4:5:6:7"), None);
    assert_eq!(parse_ipv6_bytes(b"1::2::3"), None);
    assert_eq!(parse_ipv6_bytes(b"12345::"), None);
    assert_eq!(parse_ipv6_bytes(b"g::"), None);
}

#[test]
fn ip_and_socket_addr_parsing() {
    assert_eq!(parse_ip_bytes(b"8.8.8.8"), Some(IpAddr::V4(Ipv4Addr::new(8, 8, 8, 8))));
    assert_eq!(parse_ip_bytes(b"::1"), Some(IpAddr::V6(Ipv6Addr::localhost())));
    assert_eq!(parse_ip_bytes(b"example.com"), None);
    assert_eq!(
        parse_socket_addr_bytes(b"127.0.0.1:8080"),
        Some(SocketAddr::V4(SocketAddrV4::new(Ipv4Addr::new(127, 0, 0, 1), 8080)))
    );
    assert_eq!(
        parse_socket_addr_bytes(b"[::1]:53"),
        Some(SocketAddr::V6(SocketAddrV6::new(Ipv6Addr::localhost(), 53)))
    );
    assert_eq!(parse_socket_addr_bytes(b"127.0.0.1"), None);
    assert_eq!(parse_socket_addr_bytes(b"127.0.0.1:65536"), None);
    assert_eq!(parse_socket_addr_bytes(b"::1:53"), None);
    assert!(SocketAddr::from_str("1.2.3.4:5").is_ok());
    assert!(IpAddr::from_str("1.2.3.4").is_ok());
}

#[test]
fn socket_addr_accessors() {
    let a = SocketAddr::new(IpAddr::V4(Ipv4Addr::new(1, 2, 3, 4)), 80);
    assert_eq!(a.ip(), IpAddr::V4(Ipv4Addr::new(1, 2, 3, 4)));
    assert_eq!(a.port(), 80);
    assert!(a.is_ipv4() && !a.is_ipv6());
    let b = SocketAddr::new(IpAddr::V6(Ipv6Addr::localhost()), 443);
    assert!(b.is_ipv6());
    assert_eq!(b.port(), 443);
    let v4 = SocketAddrV4::new(Ipv4Addr::new(9, 9, 9, 9), 1);
    assert_eq!(*v4.ip(), Ipv4Addr::new(9, 9, 9, 9));
    assert_eq!(v4.port(), 1);
    let v6 = SocketAddrV6::new(Ipv6Addr::localhost(), 2);
    assert_eq!(*v6.ip(), Ipv6Addr::localhost());
    assert_eq!(v6.port(), 2);
}

#[test]
fn shutdown_and_family_numbers() {
    assert_eq!(shutdown_how(Shutdown::Read), 0);
    assert_eq!(shutdown_how(Shutdown::Write), 1);
    assert_eq!(shutdown_how(Shutdown::Both), 2);
    let a = SocketAddr::new(IpAddr::V4(Ipv4Addr::new(1, 2, 3, 4)), 80);
    let b = SocketAddr::new(IpAddr::V6(Ipv6Addr::localhost()), 80);
    assert_eq!(family_of(&a), 2);
    assert_eq!(family_of(&b), 10);
}

#[test]
fn sockaddr_encode_layout() {
    let a = SocketAddr::new(IpAddr::V4(Ipv4Addr::new(10, 1, 2, 3)), 0x1f90);
    let mut buf = [0xaau8; 28];
    let len = encode_sockaddr(&a, &mut buf);
    assert_eq!(len, 16);
    assert_eq!(&buf[0..8], &[2, 0, 0x1f, 0x90, 10, 1, 2, 3]);
    let b = SocketAddr::new(IpAddr::V6(Ipv6Addr::localhost()), 53);
    let mut buf6 = [0u8; 28];
    assert_eq!(encode_sockaddr(&b, &mut buf6), 28);
    assert_eq!(&buf6[0..4], &[10, 0, 0, 53]);
    assert_eq!(buf6[23], 1);
}

#[test]
fn sockaddr_round_trip() {
    let addrs = [
        SocketAddr::new(IpAddr::V4(Ipv4Addr::new(192, 168, 0, 1)), 22),
        SocketAddr::new(IpAddr::V6(Ipv6Addr::localhost()), 65535),
    ];
    for a in addrs.iter() {
        let mut buf = [0u8; 28];
        encode_sockaddr(a, &mut buf);
        assert_eq!(decode_sockaddr(&buf), Some(*a));
    }
    let unknown = [1u8; 28];
    assert_eq!(decode_sockaddr(&unknown), None);
}

#[test]
fn address_display_text() {
    assert_eq!(Ipv4Addr::new(192, 168, 0, 10).to_string(), "192.168.0.10");
    assert_eq!(Ipv4Addr::new(0, 0, 0, 0).to_string(), "0.0.0.0");
    assert_eq!(Ipv6Addr::localhost().to_string(), "0:0:0:0:0:0:0:1");
    let o = [0x20, 0x01, 0x0d, 0xb8, 0, 0, 0, 0, 0, 0, 0, 0, 0xab, 0xcd, 0, 0x10];
    assert_eq!(Ipv6Addr::from_octets(o).to_string(), "2001:db8:0:0:0:0:abcd:10");
    assert_eq!(IpAddr::V4(Ipv4Addr::new(1, 2, 3, 4)).to_string(), "1.2.3.4");
    assert_eq!(SocketAddr::new(IpAddr::V4(Ipv4Addr::new(1, 2, 3, 4)), 80).to_string(), "1.2.3.4:80");
    assert_eq!(
        SocketAddr::new(IpAddr::V6(Ipv6Addr::localhost()), 8080).to_string(),
        "[0:0:0:0:0:0:0:1]:8080"
    );
}

#[test]
fn display_then_parse_gives_address_back() {
    let a = Ipv4Addr::new(172, 16, 254, 3);
    assert_eq!(Ipv4Addr::from_str(&a.to_string()), Ok(a));
    let s = SocketAddr::new(IpAddr::V4(a), 9000);
    assert_eq!(SocketAddr::from_str(&s.to_string()), Ok(s));
    let v6 = Ipv6Addr::from_octets([0xfe, 0x80, 0, 0, 0, 0, 0, 0, 0, 0, 0, 0, 0, 0, 0, 7]);
    assert_eq!(Ipv6Addr::from_str(&v6.to_string()), Ok(v6));
}

#[test]
fn socket_addr_v6_text_round_trip() {
    let mut o = [0u8; 16];
    o[0] = 0x20;
    o[1] = 0x01;
    o[2] = 0x0d;
    o[3] = 0xb8;
    o[15] = 1;
    let a = SocketAddr::V6(SocketAddrV6::new(Ipv6Addr::from_octets(o), 8080));
    let t = a.to_string();
    assert_eq!(t, "[2001:db8:0:0:0:0:0:1]:8080");
    assert_eq!(parse_socket_addr_bytes(t.as_bytes()), Some(a));
}
