//! Writing numbers and addresses as text: decimal and lowercase
//! hexadecimal digits, dotted IPv4, colon-separated IPv6, socket addresses
//! and the message of an I/O error.
use vstd::prelude::*;
use crate::cli::string_from_chars;
use crate::text::str_chars;
use crate::io_error::{Error, ErrorKind, Repr, kind_text, errno_kind_spec, errno_kind};
use crate::net_addr::{Ipv4Addr, Ipv6Addr, IpAddr, SocketAddr, segment_of};

verus! {

/// The character for digit value `d` (below 16): `0`-`9`, then `a`-`f`.
pub open spec fn digit_char(d: nat) -> char {
    if d < 10 { (('0' as u32) + d) as char } else { (('a' as u32) + d - 10) as char }
}

/// `n` written in base `base` without leading zeros (`0` for zero).
pub open spec fn digits_text(n: nat, base: nat) -> Seq<char>
    recommends
        2 <= base <= 16,
    decreases n,
{
    if n < base || base < 2 {
        seq![digit_char(n)]
    } else {
        proof {
            assert(n / base < n) by (nonlinear_arith)
                requires
                    n >= base,
                    base >= 2,
            ;
        }
        digits_text(n / base, base).push(digit_char(n % base))
    }
}

/// `n` in decimal.
pub open spec fn dec_text(n: nat) -> Seq<char> {
    digits_text(n, 10)
}

/// `n` in lowercase hexadecimal.
pub open spec fn hex_text(n: nat) -> Seq<char> {
    digits_text(n, 16)
}

/// A signed number in decimal, with a leading `-` when negative.
pub open spec fn signed_dec_text(n: int) -> Seq<char> {
    if n < 0 { seq!['-'] + dec_text((-n) as nat) } else { dec_text(n as nat) }
}

fn digit(d: u64) -> (c: char)
    requires
        d < 16,
    ensures
        c == digit_char(d as nat),
{
    if d < 10 {
        let b: u8 = 48u8 + (d as u8);
        b as char
    } else {
        let b: u8 = 87u8 + (d as u8);
        assert(87 + d == ('a' as u32) + d - 10);
        b as char
    }
}

/// Append `n` written in base `base`.
fn push_digits(out: &mut Vec<char>, n: u64, base: u64)
    requires
        2 <= base <= 16,
    ensures
        final(out)@ == old(out)@ + digits_text(n as nat, base as nat),
    decreases n,
{
    if n >= base {
        assert(n / base < n) by (nonlinear_arith)
            requires
                n >= base,
                base >= 2,
        ;
        push_digits(out, n / base, base);
    }
    out.push(digit(n % base));
    proof {
        if n < base {
            assert(n % base == n) by (nonlinear_arith)
                requires
                    n < base,
            ;
        }
    }
}

/// Append the characters of `s`.
fn push_str(out: &mut Vec<char>, s: &str)
    ensures
        final(out)@ == old(out)@ + s@,
{
    let cs = str_chars(s);
    let mut i: usize = 0;
    while i < cs.len()
        invariant
            i <= cs@.len(),
            cs@ == s@,
            out@ == old(out)@ + cs@.take(i as int),
        decreases cs@.len() - i,
    {
        out.push(cs[i]);
        i += 1;
        assert(out@ =~= old(out)@ + cs@.take(i as int));
    }
    assert(cs@.take(cs@.len() as int) =~= cs@);
}

/// Dotted-decimal text of four octets.
pub open spec fn ipv4_text(o: Seq<u8>) -> Seq<char> {
    dec_text(o[0] as nat) + seq!['.'] + dec_text(o[1] as nat) + seq!['.'] + dec_text(o[2] as nat)
        + seq!['.'] + dec_text(o[3] as nat)
}

/// The eight segments in hexadecimal, separated by colons, none left out.
pub open spec fn ipv6_text(o: Seq<u8>) -> Seq<char>
    decreases 8int,
{
    ipv6_groups(o, 8)
}

/// The first `k` segments of `o` in hexadecimal, separated by colons.
pub open spec fn ipv6_groups(o: Seq<u8>, k: nat) -> Seq<char>
    decreases k,
{
    if k == 0 {
        Seq::empty()
    } else if k == 1 {
        hex_text(segment_of(o, 0) as nat)
    } else {
        ipv6_groups(o, (k - 1) as nat) + seq![':'] + hex_text(segment_of(o, k - 1) as nat)
    }
}

/// The text of an IP address.
pub open spec fn ip_text(a: IpAddr) -> Seq<char> {
    match a {
        IpAddr::V4(v) => ipv4_text(v.octets@),
        IpAddr::V6(v) => ipv6_text(v.octets@),
    }
}

/// The text of a socket address: `ip:port`, with an IPv6 address in
/// brackets.
pub open spec fn socket_addr_text(a: SocketAddr) -> Seq<char> {
    match a {
        SocketAddr::V4(v) => ipv4_text(v.ip.octets@) + seq![':'] + dec_text(v.port as nat),
        SocketAddr::V6(v) => seq!['['] + ipv6_text(v.ip.octets@) + seq![']', ':'] + dec_text(v.port as nat),
    }
}

fn push_ipv4(out: &mut Vec<char>, a: &Ipv4Addr)
    ensures
        final(out)@ == old(out)@ + ipv4_text(a.octets@),
{
    push_digits(out, a.octets[0] as u64, 10);
    out.push('.');
    push_digits(out, a.octets[1] as u64, 10);
    out.push('.');
    push_digits(out, a.octets[2] as u64, 10);
    out.push('.');
    push_digits(out, a.octets[3] as u64, 10);
    assert(out@ =~= old(out)@ + ipv4_text(a.octets@));
}

fn push_ipv6(out: &mut Vec<char>, a: &Ipv6Addr)
    ensures
        final(out)@ == old(out)@ + ipv6_text(a.octets@),
{
    let s = a.segments();
    let mut k: usize = 0;
    while k < 8
        invariant
            k <= 8,
            forall|i: int| 0 <= i < 8 ==> #[trigger] s@[i] == segment_of(a.octets@, i),
            out@ == old(out)@ + ipv6_groups(a.octets@, k as nat),
        decreases 8 - k,
    {
        if k > 0 {
            out.push(':');
        }
        let ghost before = out@;
        push_digits(out, s[k] as u64, 16);
        proof {
            if k == 0 {
                assert(ipv6_groups(a.octets@, 0) =~= Seq::<char>::empty());
            }
        }
        k += 1;
        assert(out@ =~= old(out)@ + ipv6_groups(a.octets@, k as nat));
    }
}

impl Ipv4Addr {
    /// The address in dotted decimal, as `Display` writes it.
    pub fn to_string(&self) -> (s: String)
        ensures
            s@ == ipv4_text(self.octets@),
    {
        let mut v: Vec<char> = Vec::new();
        push_ipv4(&mut v, self);
        assert(v@ =~= ipv4_text(self.octets@));
        string_from_chars(&v)
    }
}

impl Ipv6Addr {
    /// The eight segments in lowercase hexadecimal joined by `:`, as
    /// `Display` writes it (no run of zero segments is shortened).
    pub fn to_string(&self) -> (s: String)
        ensures
            s@ == ipv6_text(self.octets@),
    {
        let mut v: Vec<char> = Vec::new();
        push_ipv6(&mut v, self);
        assert(v@ =~= ipv6_text(self.octets@));
        string_from_chars(&v)
    }
}

impl IpAddr {
    /// The address as `Display` writes it.
    pub fn to_string(&self) -> (s: String)
        ensures
            s@ == ip_text(*self),
    {
        match self {
            IpAddr::V4(a) => a.to_string(),
            IpAddr::V6(a) => a.to_string(),
        }
    }
}

impl SocketAddr {
    /// `ip:port`, or `[ip]:port` for IPv6, as `Display` writes it.
    pub fn to_string(&self) -> (s: String)
        ensures
            s@ == socket_addr_text(*self),
    {
        let mut v: Vec<char> = Vec::new();
        match self {
            SocketAddr::V4(a) => {
                push_ipv4(&mut v, &a.ip);
                v.push(':');
                push_digits(&mut v, a.port as u64, 10);
            },
            SocketAddr::V6(a) => {
                v.push('[');
                push_ipv6(&mut v, &a.ip);
                v.push(']');
                v.push(':');
                push_digits(&mut v, a.port as u64, 10);
            },
        }
        assert(v@ =~= socket_addr_text(*self));
        string_from_chars(&v)
    }
}

/// What `Display` writes for an error: the kind's description and the
/// number for an OS error, the kind's description for a bare kind, and the
/// message for one made with a message.
pub open spec fn error_text(e: Error) -> Seq<char> {
    match e.repr {
        Repr::Os(c) => kind_text(errno_kind_spec(c)) + " (os error "@ + signed_dec_text(c as int) + ")"@,
        Repr::Simple(k) => kind_text(k),
        Repr::Custom(_, m) => m@,
    }
}

impl Error {
    /// The error's message, as `Display` writes it.
    pub fn to_string(&self) -> (s: String)
        ensures
            s@ == error_text(*self),
    {
        let mut v: Vec<char> = Vec::new();
        match &self.repr {
            Repr::Os(c) => {
                push_str(&mut v, errno_kind(*c).as_str());
                push_str(&mut v, " (os error ");
                if *c < 0 {
                    v.push('-');
                    let m: u64 = (0i64 - (*c as i64)) as u64;
                    push_digits(&mut v, m, 10);
                } else {
                    push_digits(&mut v, *c as u64, 10);
                }
                push_str(&mut v, ")");
            },
            Repr::Simple(k) => {
                push_str(&mut v, k.as_str());
            },
            Repr::Custom(_, m) => {
                push_str(&mut v, m.as_str());
            },
        }
        assert(v@ =~= error_text(*self));
        string_from_chars(&v)
    }
}

} // verus!
