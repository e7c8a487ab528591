//! IP and socket addresses, and their encoding as raw `sockaddr` bytes.
use vstd::prelude::*;

verus! {

/// Address family number of IPv4 sockets.
pub const AF_INET: u16 = 2;
/// Address family number of IPv6 sockets.
pub const AF_INET6: u16 = 10;

/// An IPv4 address.
#[derive(Clone, Copy, PartialEq, Eq, Debug)]
pub struct Ipv4Addr {
    pub octets: [u8; 4],
}

/// An IPv6 address.
#[derive(Clone, Copy, PartialEq, Eq, Debug)]
pub struct Ipv6Addr {
    pub octets: [u8; 16],
}

/// Either an IPv4 or an IPv6 address.
#[derive(Clone, Copy, PartialEq, Eq, Debug)]
pub enum IpAddr {
    V4(Ipv4Addr),
    V6(Ipv6Addr),
}

/// The 16-bit group `i` of a 16-byte address, big-endian.
pub open spec fn segment_of(o: Seq<u8>, i: int) -> u16 {
    (o[2 * i] as int * 256 + o[2 * i + 1] as int) as u16
}

/// The octets of `::ffff:a.b.c.d`.
pub open spec fn mapped_octets(o: Seq<u8>) -> Seq<u8> {
    seq![0u8, 0, 0, 0, 0, 0, 0, 0, 0, 0, 0xff, 0xff, o[0], o[1], o[2], o[3]]
}

/// The octets of `::1`.
pub open spec fn ipv6_loopback_octets() -> Seq<u8> {
    seq![0u8, 0, 0, 0, 0, 0, 0, 0, 0, 0, 0, 0, 0, 0, 0, 1]
}

impl Ipv4Addr {
    /// `a.b.c.d`.
    pub fn new(a: u8, b: u8, c: u8, d: u8) -> (r: Ipv4Addr)
        ensures
            r.octets@ == seq![a, b, c, d],
    {
        let r = Ipv4Addr { octets: [a, b, c, d] };
        assert(r.octets@ =~= seq![a, b, c, d]);
        r
    }

    /// `127.0.0.1`.
    pub fn localhost() -> (r: Ipv4Addr)
        ensures
            r.octets@ == seq![127u8, 0, 0, 1],
    {
        Ipv4Addr::new(127, 0, 0, 1)
    }

    /// `0.0.0.0`.
    pub fn unspecified() -> (r: Ipv4Addr)
        ensures
            r.octets@ == seq![0u8, 0, 0, 0],
    {
        Ipv4Addr::new(0, 0, 0, 0)
    }

    /// Build from four octets.
    pub fn from_octets(octets: [u8; 4]) -> (r: Ipv4Addr)
        ensures
            r.octets == octets,
    {
        Ipv4Addr { octets }
    }

    /// The four octets.
    pub fn octets(&self) -> (r: [u8; 4])
        ensures
            r == self.octets,
    {
        self.octets
    }

    /// Whether this is in `127.0.0.0/8`.
    pub fn is_loopback(&self) -> (b: bool)
        ensures
            b == (self.octets@[0] == 127),
    {
        self.octets[0] == 127
    }

    /// Whether this is `0.0.0.0`.
    pub fn is_unspecified(&self) -> (b: bool)
        ensures
            b == (self.octets@ == seq![0u8, 0, 0, 0]),
    {
        let b = self.octets[0] == 0 && self.octets[1] == 0 && self.octets[2] == 0
            && self.octets[3] == 0;
        proof {
            if b {
                assert(self.octets@ =~= seq![0u8, 0, 0, 0]);
            } else if self.octets@ == seq![0u8, 0, 0, 0] {
                assert(self.octets@[0] == 0 && self.octets@[1] == 0);
                assert(self.octets@[2] == 0 && self.octets@[3] == 0);
            }
        }
        b
    }

    /// Map this IPv4 address into the IPv4-mapped IPv6 space (`::ffff:a.b.c.d`).
    pub fn to_ipv6_mapped(&self) -> (r: Ipv6Addr)
        ensures
            r.octets@ == mapped_octets(self.octets@),
    {
        let o = self.octets;
        let r = Ipv6Addr { octets: [0, 0, 0, 0, 0, 0, 0, 0, 0, 0, 0xff, 0xff, o[0], o[1], o[2], o[3]] };
        assert(r.octets@ =~= mapped_octets(self.octets@));
        r
    }
}

impl Ipv6Addr {
    /// `::1`.
    pub fn localhost() -> (r: Ipv6Addr)
        ensures
            r.octets@ == ipv6_loopback_octets(),
    {
        let r = Ipv6Addr { octets: [0, 0, 0, 0, 0, 0, 0, 0, 0, 0, 0, 0, 0, 0, 0, 1] };
        assert(r.octets@ =~= ipv6_loopback_octets());
        r
    }

    /// `::`.
    pub fn unspecified() -> (r: Ipv6Addr)
        ensures
            forall|i: int| 0 <= i < 16 ==> r.octets@[i] == 0,
    {
        Ipv6Addr { octets: [0u8; 16] }
    }

    /// Build from sixteen octets.
    pub fn from_octets(octets: [u8; 16]) -> (r: Ipv6Addr)
        ensures
            r.octets == octets,
    {
        Ipv6Addr { octets }
    }

    /// The sixteen octets.
    pub fn octets(&self) -> (r: [u8; 16])
        ensures
            r == self.octets,
    {
        self.octets
    }

    /// The eight big-endian 16-bit groups.
    pub fn segments(&self) -> (s: [u16; 8])
        ensures
            forall|i: int| 0 <= i < 8 ==> s@[i] == segment_of(self.octets@, i),
    {
        let mut s = [0u16; 8];
        let mut i: usize = 0;
        while i < 8
            invariant
                i <= 8,
                self.octets@.len() == 16,
                forall|j: int| 0 <= j < i ==> s@[j] == segment_of(self.octets@, j),
            decreases 8 - i,
        {
            let hi = self.octets[2 * i] as u16;
            let lo = self.octets[2 * i + 1] as u16;
            s[i] = hi * 256 + lo;
            i += 1;
        }
        s
    }

    /// Whether this is `::1`.
    pub fn is_loopback(&self) -> (b: bool)
        ensures
            b == (self.octets@ == ipv6_loopback_octets()),
    {
        let mut i: usize = 0;
        while i < 15
            invariant
                i <= 15,
                self.octets@.len() == 16,
                forall|j: int| 0 <= j < i ==> self.octets@[j] == 0,
            decreases 15 - i,
        {
            if self.octets[i] != 0 {
                proof {
                    if self.octets@ == ipv6_loopback_octets() {
                        assert(self.octets@[i as int] == ipv6_loopback_octets()[i as int]);
                    }
                }
                return false;
            }
            i += 1;
        }
        let b = self.octets[15] == 1;
        proof {
            if b {
                assert(self.octets@ =~= ipv6_loopback_octets());
            } else if self.octets@ == ipv6_loopback_octets() {
                assert(self.octets@[15] == ipv6_loopback_octets()[15]);
            }
        }
        b
    }
}

impl IpAddr {
    /// Whether this is an IPv4 address.
    pub fn is_ipv4(&self) -> (b: bool)
        ensures
            b == (*self is V4),
    {
        matches!(self, IpAddr::V4(_))
    }

    /// Whether this is an IPv6 address.
    pub fn is_ipv6(&self) -> (b: bool)
        ensures
            b == (*self is V6),
    {
        matches!(self, IpAddr::V6(_))
    }

    /// Whether this is a loopback address (`127.0.0.0/8` or `::1`).
    pub fn is_loopback(&self) -> (b: bool)
        ensures
            b == match *self {
                IpAddr::V4(a) => a.octets@[0] == 127,
                IpAddr::V6(a) => a.octets@ == ipv6_loopback_octets(),
            },
    {
        match self {
            IpAddr::V4(a) => a.is_loopback(),
            IpAddr::V6(a) => a.is_loopback(),
        }
    }
}

/// Error parsing an IP or socket address.
#[derive(Clone, Copy, PartialEq, Eq, Debug, Structural)]
pub struct AddrParseError;

impl AddrParseError {
    /// The error's description.
    pub fn description(&self) -> (s: &'static str)
        ensures
            s@ == "invalid IP address syntax"@,
    {
        "invalid IP address syntax"
    }
}

/// An IPv4 socket address.
#[derive(Clone, Copy, PartialEq, Eq, Debug)]
pub struct SocketAddrV4 {
    pub ip: Ipv4Addr,
    pub port: u16,
}

/// An IPv6 socket address.
#[derive(Clone, Copy, PartialEq, Eq, Debug)]
pub struct SocketAddrV6 {
    pub ip: Ipv6Addr,
    pub port: u16,
}

/// An IPv4 or IPv6 socket address.
#[derive(Clone, Copy, PartialEq, Eq, Debug)]
pub enum SocketAddr {
    V4(SocketAddrV4),
    V6(SocketAddrV6),
}

impl SocketAddrV4 {
    pub fn new(ip: Ipv4Addr, port: u16) -> (r: SocketAddrV4)
        ensures
            r.ip == ip && r.port == port,
    {
        SocketAddrV4 { ip, port }
    }

    pub fn ip(&self) -> (r: &Ipv4Addr)
        ensures
            *r == self.ip,
    {
        &self.ip
    }

    pub fn port(&self) -> (r: u16)
        ensures
            r == self.port,
    {
        self.port
    }
}

impl SocketAddrV6 {
    pub fn new(ip: Ipv6Addr, port: u16) -> (r: SocketAddrV6)
        ensures
            r.ip == ip && r.port == port,
    {
        SocketAddrV6 { ip, port }
    }

    pub fn ip(&self) -> (r: &Ipv6Addr)
        ensures
            *r == self.ip,
    {
        &self.ip
    }

    pub fn port(&self) -> (r: u16)
        ensures
            r == self.port,
    {
        self.port
    }
}

/// The address part of a socket address.
pub open spec fn sock_ip(a: SocketAddr) -> IpAddr {
    match a {
        SocketAddr::V4(v) => IpAddr::V4(v.ip),
        SocketAddr::V6(v) => IpAddr::V6(v.ip),
    }
}

/// The port part of a socket address.
pub open spec fn sock_port(a: SocketAddr) -> u16 {
    match a {
        SocketAddr::V4(v) => v.port,
        SocketAddr::V6(v) => v.port,
    }
}

/// The socket address made of an address and a port.
pub open spec fn sock_new(ip: IpAddr, port: u16) -> SocketAddr {
    match ip {
        IpAddr::V4(a) => SocketAddr::V4(SocketAddrV4 { ip: a, port }),
        IpAddr::V6(a) => SocketAddr::V6(SocketAddrV6 { ip: a, port }),
    }
}

impl SocketAddr {
    pub fn new(ip: IpAddr, port: u16) -> (r: SocketAddr)
        ensures
            r == sock_new(ip, port),
    {
        match ip {
            IpAddr::V4(a) => SocketAddr::V4(SocketAddrV4::new(a, port)),
            IpAddr::V6(a) => SocketAddr::V6(SocketAddrV6::new(a, port)),
        }
    }

    pub fn ip(&self) -> (r: IpAddr)
        ensures
            r == sock_ip(*self),
    {
        match self {
            SocketAddr::V4(a) => IpAddr::V4(a.ip),
            SocketAddr::V6(a) => IpAddr::V6(a.ip),
        }
    }

    pub fn port(&self) -> (r: u16)
        ensures
            r == sock_port(*self),
    {
        match self {
            SocketAddr::V4(a) => a.port,
            SocketAddr::V6(a) => a.port,
        }
    }

    pub fn is_ipv4(&self) -> (b: bool)
        ensures
            b == (*self is V4),
    {
        matches!(self, SocketAddr::V4(_))
    }

    pub fn is_ipv6(&self) -> (b: bool)
        ensures
            b == (*self is V6),
    {
        matches!(self, SocketAddr::V6(_))
    }
}

/// A socket address made of an address and a port, and taken apart again,
/// gives back both parts.
pub proof fn lemma_socket_addr_parts(ip: IpAddr, port: u16)
    ensures
        sock_ip(sock_new(ip, port)) == ip,
        sock_port(sock_new(ip, port)) == port,
{
}

/// How to shut down a socket.
#[derive(Clone, Copy, PartialEq, Eq, Debug, Structural)]
pub enum Shutdown {
    Read,
    Write,
    Both,
}

/// The `how` argument of `shutdown(2)` for each mode.
pub fn shutdown_how(how: Shutdown) -> (r: usize)
    ensures
        r == match how {
            Shutdown::Read => 0usize,
            Shutdown::Write => 1usize,
            Shutdown::Both => 2usize,
        },
{
    match how {
        Shutdown::Read => 0,
        Shutdown::Write => 1,
        Shutdown::Both => 2,
    }
}

/// The address family of a socket address.
pub fn family_of(addr: &SocketAddr) -> (f: u16)
    ensures
        f == if *addr is V4 { AF_INET } else { AF_INET6 },
{
    match addr {
        SocketAddr::V4(_) => AF_INET,
        SocketAddr::V6(_) => AF_INET6,
    }
}

// ---- raw sockaddr encoding (x86-64: the family is little-endian, the port big-endian) ----

/// The high byte of a 16-bit value.
pub open spec fn hi_byte(v: u16) -> u8 {
    (v / 256) as u8
}

/// The low byte of a 16-bit value.
pub open spec fn lo_byte(v: u16) -> u8 {
    (v % 256) as u8
}

/// Whether `buf` holds `addr` in `sockaddr_in`/`sockaddr_in6` layout, and the
/// bytes that layout does not cover are those of `prior`.
pub open spec fn encodes(addr: SocketAddr, buf: Seq<u8>, prior: Seq<u8>) -> bool {
    &&& buf.len() == 28
    &&& prior.len() == 28
    &&& buf[2] == hi_byte(sock_port(addr))
    &&& buf[3] == lo_byte(sock_port(addr))
    &&& match addr {
        SocketAddr::V4(a) => {
            &&& buf[0] == 2 && buf[1] == 0
            &&& buf.subrange(4, 8) == a.ip.octets@
            &&& buf.subrange(8, 28) == prior.subrange(8, 28)
        },
        SocketAddr::V6(a) => {
            &&& buf[0] == 10 && buf[1] == 0
            &&& buf.subrange(4, 8) == prior.subrange(4, 8)
            &&& buf.subrange(8, 24) == a.ip.octets@
            &&& buf.subrange(24, 28) == prior.subrange(24, 28)
        },
    }
}

/// The length `bind`/`connect` are given for each family.
pub open spec fn sockaddr_len(addr: SocketAddr) -> usize {
    if addr is V4 { 16 } else { 28 }
}

/// Encode `addr` into `buf` and return the length of the encoded address.
pub fn encode_sockaddr(addr: &SocketAddr, buf: &mut [u8; 28]) -> (len: usize)
    ensures
        encodes(*addr, final(buf)@, old(buf)@),
        len == sockaddr_len(*addr),
{
    let port = match addr {
        SocketAddr::V4(a) => a.port,
        SocketAddr::V6(a) => a.port,
    };
    buf[2] = (port / 256) as u8;
    buf[3] = (port % 256) as u8;
    match addr {
        SocketAddr::V4(a) => {
            buf[0] = 2;
            buf[1] = 0;
            let mut i: usize = 0;
            while i < 4
                invariant
                    i <= 4,
                    buf@.len() == 28,
                    forall|j: int| 0 <= j < i ==> buf@[4 + j] == a.ip.octets@[j],
                    forall|j: int| 8 <= j < 28 ==> buf@[j] == old(buf)@[j],
                    buf@[0] == 2 && buf@[1] == 0,
                    buf@[2] == hi_byte(port) && buf@[3] == lo_byte(port),
                decreases 4 - i,
            {
                buf[4 + i] = a.ip.octets[i];
                i += 1;
            }
            assert(buf@.subrange(4, 8) =~= a.ip.octets@);
            assert(buf@.subrange(8, 28) =~= old(buf)@.subrange(8, 28));
            16
        },
        SocketAddr::V6(a) => {
            buf[0] = 10;
            buf[1] = 0;
            let mut i: usize = 0;
            while i < 16
                invariant
                    i <= 16,
                    buf@.len() == 28,
                    forall|j: int| 0 <= j < i ==> buf@[8 + j] == a.ip.octets@[j],
                    forall|j: int| 4 <= j < 8 ==> buf@[j] == old(buf)@[j],
                    forall|j: int| 24 <= j < 28 ==> buf@[j] == old(buf)@[j],
                    buf@[0] == 10 && buf@[1] == 0,
                    buf@[2] == hi_byte(port) && buf@[3] == lo_byte(port),
                decreases 16 - i,
            {
                buf[8 + i] = a.ip.octets[i];
                i += 1;
            }
            assert(buf@.subrange(8, 24) =~= a.ip.octets@);
            assert(buf@.subrange(4, 8) =~= old(buf)@.subrange(4, 8));
            assert(buf@.subrange(24, 28) =~= old(buf)@.subrange(24, 28));
            28
        },
    }
}

/// The family number stored (little-endian) in a raw `sockaddr`.
pub open spec fn family_field(sa: Seq<u8>) -> int {
    sa[0] as int + sa[1] as int * 256
}

/// The port stored (big-endian) in a raw `sockaddr`.
pub open spec fn port_field(sa: Seq<u8>) -> int {
    sa[2] as int * 256 + sa[3] as int
}

/// Whether `r` is what a raw `sockaddr` buffer `sa` decodes to: an IPv4
/// address for family 2, an IPv6 address for family 10, nothing otherwise.
pub open spec fn decodes(sa: Seq<u8>, r: Option<SocketAddr>) -> bool {
    match r {
        Some(SocketAddr::V4(a)) => family_field(sa) == AF_INET && a.port == port_field(sa)
            && a.ip.octets@ == sa.subrange(4, 8),
        Some(SocketAddr::V6(a)) => family_field(sa) == AF_INET6 && a.port == port_field(sa)
            && a.ip.octets@ == sa.subrange(8, 24),
        None => family_field(sa) != AF_INET && family_field(sa) != AF_INET6,
    }
}

/// A raw buffer decodes to at most one socket address.
pub proof fn lemma_decodes_unique(sa: Seq<u8>, r1: Option<SocketAddr>, r2: Option<SocketAddr>)
    requires
        decodes(sa, r1),
        decodes(sa, r2),
    ensures
        r1 == r2,
{
    broadcast use vstd::array::axiom_array_ext_equal;
    match (r1, r2) {
        (Some(SocketAddr::V4(a)), Some(SocketAddr::V4(b))) => {
            assert(a.ip.octets@ =~= b.ip.octets@);
            assert(a.ip.octets == b.ip.octets);
        },
        (Some(SocketAddr::V6(a)), Some(SocketAddr::V6(b))) => {
            assert(a.ip.octets@ =~= b.ip.octets@);
            assert(a.ip.octets == b.ip.octets);
        },
        _ => {},
    }
}

/// Decoding what encoding wrote gives back the encoded address, whatever
/// the buffer held before.
pub proof fn lemma_encode_decode(addr: SocketAddr, buf: Seq<u8>, before: Seq<u8>)
    requires
        encodes(addr, buf, before),
    ensures
        decodes(buf, Some(addr)),
{
    let p = sock_port(addr);
    assert(p / 256 * 256 + p % 256 == p);
}

/// Decode a raw `sockaddr` buffer (family little-endian, port big-endian).
pub fn decode_sockaddr(sa: &[u8; 28]) -> (r: Option<SocketAddr>)
    ensures
        decodes(sa@, r),
{
    let fam: u16 = sa[0] as u16 + sa[1] as u16 * 256;
    let port: u16 = sa[2] as u16 * 256 + sa[3] as u16;
    if fam == AF_INET {
        let o: [u8; 4] = [sa[4], sa[5], sa[6], sa[7]];
        assert(o@ =~= sa@.subrange(4, 8));
        Some(SocketAddr::V4(SocketAddrV4::new(Ipv4Addr { octets: o }, port)))
    } else if fam == AF_INET6 {
        let mut o = [0u8; 16];
        let mut i: usize = 0;
        while i < 16
            invariant
                i <= 16,
                sa@.len() == 28,
                forall|j: int| 0 <= j < i ==> o@[j] == sa@[8 + j],
            decreases 16 - i,
        {
            o[i] = sa[8 + i];
            i += 1;
        }
        assert(o@ =~= sa@.subrange(8, 24));
        Some(SocketAddr::V6(SocketAddrV6::new(Ipv6Addr { octets: o }, port)))
    } else {
        None
    }
}

} // verus!
