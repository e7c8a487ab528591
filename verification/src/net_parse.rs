//! Parsing IP and socket addresses from text.
use vstd::prelude::*;
use vstd::string::StringSliceAdditionalSpecFns;
use crate::bytes_parse::{
    split_on, split_bytes, views, first_pair, find_pair, last_index, rfind_byte,
    parse_unsigned_spec, parse_unsigned,
};
use crate::net_addr::{Ipv4Addr, Ipv6Addr, IpAddr, SocketAddr, SocketAddrV4, SocketAddrV6, AddrParseError};

verus! {

/// The octets that `s` denotes as a dotted-quad IPv4 address: exactly four
/// `.`-separated decimal `u8` values.
pub open spec fn ipv4_spec(s: Seq<u8>) -> Option<Seq<u8>> {
    let parts = split_on(s, 46);
    if parts.len() == 4 && forall|i: int| 0 <= i < 4 ==> (#[trigger] parse_unsigned_spec(parts[i], 10, 255)) is Some {
        Some(Seq::new(4, |i: int| parse_unsigned_spec(parts[i], 10, 255)->0 as u8))
    } else {
        None
    }
}

/// Parse a dotted-quad IPv4 address from bytes.
pub fn parse_ipv4_bytes(s: &[u8]) -> (r: Option<[u8; 4]>)
    ensures
        match ipv4_spec(s@) {
            Some(o) => r matches Some(a) && a@ == o,
            None => r is None,
        },
{
    let parts = split_bytes(s, 46);
    if parts.len() != 4 {
        return None;
    }
    let ghost ps = split_on(s@, 46);
    assert(forall|i: int| 0 <= i < 4 ==> #[trigger] parts@[i]@ == ps[i]) by {
        assert forall|i: int| 0 <= i < 4 implies #[trigger] parts@[i]@ == ps[i] by {
            assert(views(parts@)[i] == parts@[i]@);
        }
    }
    let mut out = [0u8; 4];
    let mut i: usize = 0;
    while i < 4
        invariant
            i <= 4,
            parts@.len() == 4,
            ps == split_on(s@, 46),
            ps.len() == 4,
            forall|k: int| 0 <= k < 4 ==> #[trigger] parts@[k]@ == ps[k],
            forall|k: int| 0 <= k < i ==> (#[trigger] parse_unsigned_spec(ps[k], 10, 255)) is Some
                && out@[k] == parse_unsigned_spec(ps[k], 10, 255)->0 as u8,
        decreases 4 - i,
    {
        let part = &parts[i];
        assert(part@ == ps[i as int]);
        match parse_unsigned(part.as_slice(), 10, 255) {
            None => {
                assert(parse_unsigned_spec(ps[i as int], 10, 255) is None);
                return None;
            },
            Some(v) => {
                assert(parse_unsigned_spec(ps[i as int], 10, 255) == Some(v as int));
                out[i] = v as u8;
            },
        }
        i += 1;
    }
    assert(out@ =~= Seq::new(4, |k: int| parse_unsigned_spec(ps[k], 10, 255)->0 as u8));
    Some(out)
}

/// The 16-bit groups of a colon-separated run of hex groups (an empty run
/// has none).
pub open spec fn groups_spec(part: Seq<u8>) -> Option<Seq<u16>> {
    if part.len() == 0 {
        Some(Seq::<u16>::empty())
    } else {
        let g = split_on(part, 58);
        if forall|i: int| 0 <= i < g.len() ==> (#[trigger] parse_unsigned_spec(g[i], 16, 0xffff)) is Some {
            Some(Seq::new(g.len(), |i: int| parse_unsigned_spec(g[i], 16, 0xffff)->0 as u16))
        } else {
            None
        }
    }
}

/// The eight groups that `s` denotes as an IPv6 address: eight groups, or
/// at most seven around a single `::` that stands for zero groups.
pub open spec fn ipv6_segments_spec(s: Seq<u8>) -> Option<Seq<u16>> {
    match first_pair(s, 58, 58) {
        None => match groups_spec(s) {
            Some(h) => if h.len() == 8 { Some(h) } else { None },
            None => None,
        },
        Some(i) => match (groups_spec(s.take(i)), groups_spec(s.skip(i + 2))) {
            (Some(h), Some(t)) => if h.len() + t.len() <= 7 {
                Some(h + Seq::new((8 - h.len() - t.len()) as nat, |k: int| 0u16) + t)
            } else {
                None
            },
            _ => None,
        },
    }
}

/// The sixteen octets of eight big-endian groups.
pub open spec fn octets_of_segments(g: Seq<u16>) -> Seq<u8> {
    Seq::new(16, |i: int| if i % 2 == 0 { (g[i / 2] / 256) as u8 } else { (g[i / 2] % 256) as u8 })
}

/// Parse a colon-separated run of hex groups.
fn parse_groups(part: &[u8]) -> (r: Option<Vec<u16>>)
    ensures
        match groups_spec(part@) {
            Some(g) => r matches Some(v) && v@ == g,
            None => r is None,
        },
{
    if part.len() == 0 {
        return Some(Vec::new());
    }
    let g = split_bytes(part, 58);
    let ghost gs = split_on(part@, 58);
    assert(gs.len() == g@.len());
    let mut out: Vec<u16> = Vec::new();
    let mut i: usize = 0;
    while i < g.len()
        invariant
            i <= g@.len(),
            views(g@) == gs,
            gs.len() == g@.len(),
            part@.len() > 0,
            gs == split_on(part@, 58),
            out@.len() == i,
            forall|k: int| 0 <= k < i ==> (#[trigger] parse_unsigned_spec(gs[k], 16, 0xffff)) is Some
                && out@[k] == parse_unsigned_spec(gs[k], 16, 0xffff)->0 as u16,
        decreases g@.len() - i,
    {
        let part = &g[i];
        assert(views(g@)[i as int] == g@[i as int]@);
        assert(part@ == gs[i as int]);
        match parse_unsigned(part.as_slice(), 16, 0xffff) {
            None => {
                assert(parse_unsigned_spec(gs[i as int], 16, 0xffff) is None);
                return None;
            },
            Some(v) => {
                assert(parse_unsigned_spec(gs[i as int], 16, 0xffff) == Some(v as int));
                out.push(v as u16);
            },
        }
        i += 1;
    }
    assert(out@ =~= Seq::new(gs.len(), |k: int| parse_unsigned_spec(gs[k], 16, 0xffff)->0 as u16));
    Some(out)
}

/// The octets of eight groups.
fn octets_from_groups(all: &Vec<u16>) -> (o: [u8; 16])
    requires
        all@.len() == 8,
    ensures
        o@ == octets_of_segments(all@),
{
    let mut o = [0u8; 16];
    let mut i: usize = 0;
    while i < 8
        invariant
            i <= 8,
            all@.len() == 8,
            forall|k: int| 0 <= k < 2 * i ==> o@[k] == octets_of_segments(all@)[k],
        decreases 8 - i,
    {
        o[2 * i] = (all[i] / 256) as u8;
        o[2 * i + 1] = (all[i] % 256) as u8;
        proof {
            assert((2 * i as int) / 2 == i);
            assert((2 * i as int + 1) / 2 == i);
            assert((2 * i as int + 1) % 2 == 1);
        }
        i += 1;
    }
    assert(o@ =~= octets_of_segments(all@));
    o
}

/// Parse an IPv6 address from bytes.
pub fn parse_ipv6_bytes(s: &[u8]) -> (r: Option<[u8; 16]>)
    ensures
        match ipv6_segments_spec(s@) {
            Some(g) => r matches Some(a) && a@ == octets_of_segments(g),
            None => r is None,
        },
{
    match find_pair(s, 58, 58) {
        None => {
            let head = parse_groups(s);
            match head {
                None => None,
                Some(h) => {
                    if h.len() != 8 {
                        return None;
                    }
                    Some(octets_from_groups(&h))
                },
            }
        },
        Some(i) => {
            assert(i + 1 < s@.len());
            let hs = vstd::slice::slice_subrange(s, 0, i);
            assert(i + 2 <= s.len());
            let ts = vstd::slice::slice_subrange(s, i + 2, s.len());
            assert(hs@ =~= s@.take(i as int));
            assert(ts@ =~= s@.skip(i + 2));
            let head = parse_groups(hs);
            let tail = parse_groups(ts);
            match (head, tail) {
                (Some(h), Some(t)) => {
                    if h.len() > 7 || t.len() > 7 - h.len() {
                        return None;
                    }
                    let mut all: Vec<u16> = Vec::new();
                    let mut k: usize = 0;
                    while k < h.len()
                        invariant
                            k <= h@.len(),
                            all@ == h@.take(k as int),
                        decreases h@.len() - k,
                    {
                        all.push(h[k]);
                        k += 1;
                        assert(all@ =~= h@.take(k as int));
                    }
                    let zeros = 8 - h.len() - t.len();
                    let ghost z = Seq::new(zeros as nat, |q: int| 0u16);
                    let mut k: usize = 0;
                    while k < zeros
                        invariant
                            k <= zeros,
                            zeros == 8 - h@.len() - t@.len(),
                            all@ == h@ + z.take(k as int),
                            z == Seq::new(zeros as nat, |q: int| 0u16),
                        decreases zeros - k,
                    {
                        all.push(0);
                        k += 1;
                        assert(all@ =~= h@ + z.take(k as int));
                    }
                    let mut k: usize = 0;
                    while k < t.len()
                        invariant
                            k <= t@.len(),
                            all@ == h@ + z + t@.take(k as int),
                        decreases t@.len() - k,
                    {
                        all.push(t[k]);
                        k += 1;
                        assert(all@ =~= h@ + z + t@.take(k as int));
                    }
                    assert(all@ =~= h@ + z + t@);
                    Some(octets_from_groups(&all))
                },
                _ => None,
            }
        },
    }
}

/// Which address an `IpAddr` parse of `s` yields: IPv4 first, then IPv6.
pub open spec fn ip_spec_ok(s: Seq<u8>, a: IpAddr) -> bool {
    match ipv4_spec(s) {
        Some(o) => a matches IpAddr::V4(x) && x.octets@ == o,
        None => match ipv6_segments_spec(s) {
            Some(g) => a matches IpAddr::V6(x) && x.octets@ == octets_of_segments(g),
            None => false,
        },
    }
}

/// Whether text parses as an IP address at all.
pub open spec fn ip_parses(s: Seq<u8>) -> bool {
    ipv4_spec(s) is Some || ipv6_segments_spec(s) is Some
}

impl Ipv4Addr {
    /// Parse `a.b.c.d`.
    pub fn from_str(s: &str) -> (r: Result<Ipv4Addr, AddrParseError>)
        ensures
            match ipv4_spec(s.spec_bytes()) {
                Some(o) => r matches Ok(a) && a.octets@ == o,
                None => r is Err,
            },
    {
        match parse_ipv4_bytes(s.as_bytes()) {
            Some(o) => Ok(Ipv4Addr { octets: o }),
            None => Err(AddrParseError),
        }
    }
}

impl Ipv6Addr {
    /// Parse an IPv6 address, with at most one `::` elision.
    pub fn from_str(s: &str) -> (r: Result<Ipv6Addr, AddrParseError>)
        ensures
            match ipv6_segments_spec(s.spec_bytes()) {
                Some(g) => r matches Ok(a) && a.octets@ == octets_of_segments(g),
                None => r is Err,
            },
    {
        match parse_ipv6_bytes(s.as_bytes()) {
            Some(o) => Ok(Ipv6Addr { octets: o }),
            None => Err(AddrParseError),
        }
    }
}

/// Parse an IPv4 or IPv6 address from bytes.
pub fn parse_ip_bytes(s: &[u8]) -> (r: Option<IpAddr>)
    ensures
        r matches Some(a) ==> ip_spec_ok(s@, a),
        r is None <==> !ip_parses(s@),
{
    match parse_ipv4_bytes(s) {
        Some(o) => Some(IpAddr::V4(Ipv4Addr { octets: o })),
        None => match parse_ipv6_bytes(s) {
            Some(o) => Some(IpAddr::V6(Ipv6Addr { octets: o })),
            None => None,
        },
    }
}

impl IpAddr {
    /// Parse an IPv4 address, or failing that an IPv6 address.
    pub fn from_str(s: &str) -> (r: Result<IpAddr, AddrParseError>)
        ensures
            r matches Ok(a) ==> ip_spec_ok(s.spec_bytes(), a),
            r is Err <==> !ip_parses(s.spec_bytes()),
    {
        match parse_ip_bytes(s.as_bytes()) {
            Some(a) => Ok(a),
            None => Err(AddrParseError),
        }
    }
}

/// Whether `a` is what the text after a leading `[` denotes: an IPv6
/// address up to the first `]:`, then a decimal port.
pub open spec fn bracketed_ok(rest: Seq<u8>, a: SocketAddr) -> bool {
    match first_pair(rest, 93, 58) {
        Some(i) => match (ipv6_segments_spec(rest.take(i)), parse_unsigned_spec(rest.skip(i + 2), 10, 0xffff)) {
            (Some(g), Some(p)) => a matches SocketAddr::V6(x) && x.ip.octets@ == octets_of_segments(g) && x.port == p,
            _ => false,
        },
        None => false,
    }
}

/// Whether the text after a leading `[` denotes no socket address.
pub open spec fn bracketed_fails(rest: Seq<u8>) -> bool {
    match first_pair(rest, 93, 58) {
        Some(i) => ipv6_segments_spec(rest.take(i)) is None || parse_unsigned_spec(rest.skip(i + 2), 10, 0xffff) is None,
        None => true,
    }
}

/// Whether `a` is what `v4:port` text denotes, split at the last colon.
pub open spec fn plain_ok(s: Seq<u8>, a: SocketAddr) -> bool {
    match last_index(s, 58) {
        Some(i) => match (ipv4_spec(s.take(i)), parse_unsigned_spec(s.skip(i + 1), 10, 0xffff)) {
            (Some(o), Some(p)) => a matches SocketAddr::V4(x) && x.ip.octets@ == o && x.port == p,
            _ => false,
        },
        None => false,
    }
}

/// Whether `v4:port` text denotes no socket address.
pub open spec fn plain_fails(s: Seq<u8>) -> bool {
    match last_index(s, 58) {
        Some(i) => ipv4_spec(s.take(i)) is None || parse_unsigned_spec(s.skip(i + 1), 10, 0xffff) is None,
        None => true,
    }
}

/// What a socket-address parse of `s` yields: `[v6]:port`, or `v4:port`
/// split at the last colon.
pub open spec fn socket_addr_spec_ok(s: Seq<u8>, a: SocketAddr) -> bool {
    if s.len() > 0 && s[0] == 91 {
        bracketed_ok(s.skip(1), a)
    } else {
        plain_ok(s, a)
    }
}

/// Whether text parses as a socket address.
pub open spec fn socket_addr_parses(s: Seq<u8>) -> bool {
    exists|a: SocketAddr| socket_addr_spec_ok(s, a)
}

/// Parse the `v6]:port` part after a leading `[`.
fn parse_bracketed(rest: &[u8]) -> (r: Option<SocketAddr>)
    ensures
        r matches Some(a) ==> bracketed_ok(rest@, a),
        r is None ==> bracketed_fails(rest@),
{
    match find_pair(rest, 93, 58) {
        None => None,
        Some(i) => {
            assert(i + 1 < rest@.len());
            let ip = vstd::slice::slice_subrange(rest, 0, i);
            assert(i + 2 <= rest.len());
            let port = vstd::slice::slice_subrange(rest, i + 2, rest.len());
            assert(ip@ =~= rest@.take(i as int));
            assert(port@ =~= rest@.skip(i + 2));
            match (parse_ipv6_bytes(ip), parse_unsigned(port, 10, 0xffff)) {
                (Some(o), Some(p)) => Some(SocketAddr::V6(SocketAddrV6 { ip: Ipv6Addr { octets: o }, port: p as u16 })),
                _ => None,
            }
        },
    }
}

/// Parse `v4:port`, split at the last colon.
fn parse_plain(s: &[u8]) -> (r: Option<SocketAddr>)
    ensures
        r matches Some(a) ==> plain_ok(s@, a),
        r is None ==> plain_fails(s@),
{
    match rfind_byte(s, 58) {
        None => None,
        Some(i) => {
            let ip = vstd::slice::slice_subrange(s, 0, i);
            assert(i < s.len());
            let port = vstd::slice::slice_subrange(s, i + 1, s.len());
            assert(ip@ =~= s@.take(i as int));
            assert(port@ =~= s@.skip(i + 1));
            match (parse_ipv4_bytes(ip), parse_unsigned(port, 10, 0xffff)) {
                (Some(o), Some(p)) => Some(SocketAddr::V4(SocketAddrV4 { ip: Ipv4Addr { octets: o }, port: p as u16 })),
                _ => None,
            }
        },
    }
}

/// Parse `[v6]:port` or `v4:port` from bytes.
pub fn parse_socket_addr_bytes(s: &[u8]) -> (r: Option<SocketAddr>)
    ensures
        r matches Some(a) ==> socket_addr_spec_ok(s@, a),
        r is None <==> !socket_addr_parses(s@),
{
    if s.len() > 0 && s[0] == 91 {
        let rest = vstd::slice::slice_subrange(s, 1, s.len());
        assert(rest@ =~= s@.skip(1));
        let r = parse_bracketed(rest);
        proof {
            if r is None && socket_addr_parses(s@) {
                let a = choose|a: SocketAddr| socket_addr_spec_ok(s@, a);
                assert(socket_addr_spec_ok(s@, a));
            }
        }
        r
    } else {
        let r = parse_plain(s);
        proof {
            if r is None && socket_addr_parses(s@) {
                let a = choose|a: SocketAddr| socket_addr_spec_ok(s@, a);
                assert(socket_addr_spec_ok(s@, a));
            }
        }
        r
    }
}

impl SocketAddr {
    /// Parse `[v6]:port` or `v4:port`.
    pub fn from_str(s: &str) -> (r: Result<SocketAddr, AddrParseError>)
        ensures
            r matches Ok(a) ==> socket_addr_spec_ok(s.spec_bytes(), a),
            r is Err <==> !socket_addr_parses(s.spec_bytes()),
    {
        match parse_socket_addr_bytes(s.as_bytes()) {
            Some(a) => Ok(a),
            None => Err(AddrParseError),
        }
    }
}

} // verus!
