//! The DNS wire format used by the resolver: building an A/AAAA query and
//! reading the addresses out of a response.
use vstd::prelude::*;
use vstd::string::StringSliceAdditionalSpecFns;
use crate::bytes_parse::{split_on, split_bytes, views};
use crate::io_error::{Error, ErrorKind, Repr};
use crate::net_addr::{IpAddr, Ipv4Addr, Ipv6Addr};

verus! {

/// The query type of IPv4 address records.
pub const QTYPE_A: u16 = 1;
/// The query type of IPv6 address records.
pub const QTYPE_AAAA: u16 = 28;

/// The encoded labels of a host name's `.`-separated pieces; empty pieces
/// and pieces longer than 63 bytes are left out.
pub open spec fn labels_spec(parts: Seq<Seq<u8>>) -> Seq<u8>
    decreases parts.len(),
{
    if parts.len() == 0 {
        Seq::empty()
    } else {
        let p = parts.last();
        labels_spec(parts.drop_last()) + if 1 <= p.len() <= 63 {
            seq![p.len() as u8] + p
        } else {
            Seq::empty()
        }
    }
}

/// The query packet for `host` with query type `qtype`: the header (the
/// given id, recursion desired, one question), the name, the type, class IN.
pub open spec fn query_spec(id: Seq<u8>, host: Seq<u8>, qtype: u16) -> Seq<u8> {
    id + seq![1u8, 0, 0, 1, 0, 0, 0, 0, 0, 0] + labels_spec(split_on(host, 46))
        + seq![0u8, (qtype / 256) as u8, (qtype % 256) as u8, 0, 1]
}

/// Append `src` to `dst`.
fn append_bytes(dst: &mut Vec<u8>, src: &[u8])
    ensures
        final(dst)@ == old(dst)@ + src@,
{
    let mut i: usize = 0;
    while i < src.len()
        invariant
            i <= src@.len(),
            dst@ == old(dst)@ + src@.take(i as int),
        decreases src@.len() - i,
    {
        dst.push(src[i]);
        i += 1;
        assert(dst@ =~= old(dst)@ + src@.take(i as int));
    }
    assert(src@.take(src@.len() as int) =~= src@);
}

/// Build the DNS query for `host`. `id` is the transaction id (two random
/// bytes chosen by the caller).
pub fn build_query(id: [u8; 2], host: &str, qtype: u16) -> (pkt: Vec<u8>)
    ensures
        pkt@ == query_spec(id@, host.spec_bytes(), qtype),
{
    let mut pkt: Vec<u8> = Vec::new();
    pkt.push(id[0]);
    pkt.push(id[1]);
    let head: [u8; 10] = [1, 0, 0, 1, 0, 0, 0, 0, 0, 0];
    append_bytes(&mut pkt, head.as_slice());
    let ghost prefix = pkt@;
    assert(prefix =~= id@ + seq![1u8, 0, 0, 1, 0, 0, 0, 0, 0, 0]);
    let parts = split_bytes(host.as_bytes(), 46);
    let ghost ps = split_on(host.spec_bytes(), 46);
    let mut i: usize = 0;
    while i < parts.len()
        invariant
            i <= parts@.len(),
            views(parts@) == ps,
            ps.len() == parts@.len(),
            pkt@ == prefix + labels_spec(ps.take(i as int)),
        decreases parts@.len() - i,
    {
        let label = &parts[i];
        assert(label@ == ps[i as int]);
        assert(ps.take(i as int + 1).drop_last() =~= ps.take(i as int));
        if label.len() >= 1 && label.len() <= 63 {
            pkt.push(label.len() as u8);
            append_bytes(&mut pkt, label.as_slice());
            assert(pkt@ =~= prefix + labels_spec(ps.take(i as int + 1)));
        } else {
            assert(pkt@ =~= prefix + labels_spec(ps.take(i as int + 1)));
        }
        i += 1;
    }
    assert(ps.take(ps.len() as int) =~= ps);
    let tail: [u8; 5] = [0, (qtype / 256) as u8, (qtype % 256) as u8, 0, 1];
    append_bytes(&mut pkt, tail.as_slice());
    assert(pkt@ =~= query_spec(id@, host.spec_bytes(), qtype));
    pkt
}

/// The position just past a (possibly compressed) name starting at `pos`,
/// or `None` if the name runs off the end of the message.
pub open spec fn skip_name_spec(msg: Seq<u8>, pos: int) -> Option<int>
    decreases msg.len() + 256 - pos,
{
    if pos < 0 || pos >= msg.len() {
        None
    } else if msg[pos] >= 192 {
        Some(pos + 2)
    } else if msg[pos] == 0 {
        Some(pos + 1)
    } else {
        skip_name_spec(msg, pos + 1 + msg[pos])
    }
}

/// Returns the position just past a (possibly compressed) name.
pub fn skip_name(msg: &[u8], pos: usize) -> (r: Option<usize>)
    requires
        msg@.len() + 0x20000 <= usize::MAX,
    ensures
        match skip_name_spec(msg@, pos as int) {
            Some(p) => r == Some(p as usize),
            None => r is None,
        },
{
    if pos > msg.len() {
        return None;
    }
    let mut cur = pos;
    loop
        invariant
            msg@.len() + 0x20000 <= usize::MAX,
            cur <= msg@.len() + 256,
            skip_name_spec(msg@, cur as int) == skip_name_spec(msg@, pos as int),
        decreases msg@.len() + 256 - cur,
    {
        if cur >= msg.len() {
            return None;
        }
        let len = msg[cur];
        if len >= 192 {
            return Some(cur + 2);
        } else if len == 0 {
            return Some(cur + 1);
        } else {
            cur = cur + 1 + len as usize;
        }
    }
}

/// The 16-bit big-endian value at `i`.
pub open spec fn be16(msg: Seq<u8>, i: int) -> int {
    msg[i] as int * 256 + msg[i + 1] as int
}

/// The position after skipping `n` questions starting at `pos`.
pub open spec fn questions_spec(msg: Seq<u8>, pos: int, n: nat) -> Option<int>
    decreases n,
{
    if n == 0 {
        Some(pos)
    } else {
        match skip_name_spec(msg, pos) {
            Some(p) => questions_spec(msg, p + 4, (n - 1) as nat),
            None => None,
        }
    }
}

/// Whether a record of type `rtype` and data length `rdlen` carries an
/// address of the queried type.
pub open spec fn record_matches(qtype: u16, rtype: int, rdlen: int) -> bool {
    (rtype == qtype && qtype == QTYPE_A && rdlen == 4) || (rtype == qtype && qtype == QTYPE_AAAA
        && rdlen == 16)
}

/// The address octets carried by `n` answer records starting at `pos`, or
/// `None` if a record is cut short.
pub open spec fn answers_spec(msg: Seq<u8>, pos: int, n: nat, qtype: u16) -> Option<Seq<Seq<u8>>>
    decreases n,
{
    if n == 0 {
        Some(Seq::empty())
    } else {
        match skip_name_spec(msg, pos) {
            None => None,
            Some(p) => if p + 10 > msg.len() {
                None
            } else {
                let rtype = be16(msg, p);
                let rdlen = be16(msg, p + 8);
                let q = p + 10;
                if q + rdlen > msg.len() {
                    None
                } else {
                    match answers_spec(msg, q + rdlen, (n - 1) as nat, qtype) {
                        None => None,
                        Some(rest) => if record_matches(qtype, rtype, rdlen) {
                            Some(seq![msg.subrange(q, q + rdlen)] + rest)
                        } else {
                            Some(rest)
                        },
                    }
                }
            },
        }
    }
}

/// The addresses a response carries for query type `qtype`, or `None` if the
/// response is malformed.
pub open spec fn response_spec(msg: Seq<u8>, qtype: u16) -> Option<Seq<Seq<u8>>> {
    if msg.len() < 12 {
        None
    } else {
        match questions_spec(msg, 12, be16(msg, 4) as nat) {
            None => None,
            Some(p) => answers_spec(msg, p, be16(msg, 6) as nat, qtype),
        }
    }
}

/// Whether an address value has the given octets.
pub open spec fn ip_has_octets(a: IpAddr, o: Seq<u8>) -> bool {
    match a {
        IpAddr::V4(x) => x.octets@ == o,
        IpAddr::V6(x) => x.octets@ == o,
    }
}

/// The error for a malformed response.
fn bad_response() -> (e: Error)
    ensures
        e.kind_spec() == ErrorKind::InvalidData,
        e.repr is Custom,
{
    Error::new(ErrorKind::InvalidData, "bad DNS response")
}

/// Skip `n` questions starting at `pos`.
fn skip_questions(msg: &[u8], pos: usize, n: usize) -> (r: Option<usize>)
    requires
        msg@.len() + 0x20000 <= usize::MAX,
        pos <= msg@.len() + 8,
    ensures
        match questions_spec(msg@, pos as int, n as nat) {
            Some(p) => r == Some(p as usize) && p <= msg@.len() + 8,
            None => r is None,
        },
        r matches Some(x) ==> x <= msg@.len() + 8 && questions_spec(msg@, pos as int, n as nat) == Some(x as int),
    decreases n,
{
    if n == 0 {
        return Some(pos);
    }
    match skip_name(msg, pos) {
        None => None,
        Some(p) => {
            proof { lemma_skip_name_bound(msg@, pos as int); }
            skip_questions(msg, p + 4, n - 1)
        },
    }
}

/// A skipped name ends at most two bytes past the end of the message.
pub proof fn lemma_skip_name_bound(msg: Seq<u8>, pos: int)
    ensures
        skip_name_spec(msg, pos) matches Some(p) ==> pos < p <= msg.len() + 1,
    decreases msg.len() + 256 - pos,
{
    if 0 <= pos < msg.len() && msg[pos] < 192 && msg[pos] != 0 {
        lemma_skip_name_bound(msg, pos + 1 + msg[pos]);
    }
}

/// Read the answer records.
fn read_answers(msg: &[u8], pos: usize, n: usize, qtype: u16, out: &mut Vec<IpAddr>) -> (ok: bool)
    requires
        msg@.len() + 0x20000 <= usize::MAX,
        pos <= msg@.len() + 8,
    ensures
        match answers_spec(msg@, pos as int, n as nat, qtype) {
            Some(v) => ok && final(out)@.len() == old(out)@.len() + v.len()
                && final(out)@.take(old(out)@.len() as int) == old(out)@
                && forall|i: int| 0 <= i < v.len() ==> ip_has_octets(#[trigger] final(out)@[old(out)@.len() + i], v[i]),
            None => !ok,
        },
    decreases n,
{
    if n == 0 {
        assert(out@.take(out@.len() as int) =~= out@);
        return true;
    }
    let p = match skip_name(msg, pos) {
        None => return false,
        Some(p) => p,
    };
    proof { lemma_skip_name_bound(msg@, pos as int); }
    if p + 10 > msg.len() {
        return false;
    }
    let rtype: u16 = msg[p] as u16 * 256 + msg[p + 1] as u16;
    let rdlen: usize = msg[p + 8] as usize * 256 + msg[p + 9] as usize;
    let q = p + 10;
    if q + rdlen > msg.len() {
        return false;
    }
    let ghost before = out@;
    if rtype == qtype && qtype == QTYPE_A && rdlen == 4 {
        let a = IpAddr::V4(Ipv4Addr::new(msg[q], msg[q + 1], msg[q + 2], msg[q + 3]));
        assert(seq![msg@[q as int], msg@[q + 1], msg@[q + 2], msg@[q + 3]] =~= msg@.subrange(q as int, q + 4));
        out.push(a);
    } else if rtype == qtype && qtype == QTYPE_AAAA && rdlen == 16 {
        let mut o = [0u8; 16];
        let mut k: usize = 0;
        while k < 16
            invariant
                k <= 16,
                q + 16 <= msg@.len(),
                msg@.len() + 0x20000 <= usize::MAX,
                forall|j: int| 0 <= j < k ==> o@[j] == msg@[q + j],
            decreases 16 - k,
        {
            o[k] = msg[q + k];
            k += 1;
        }
        assert(o@ =~= msg@.subrange(q as int, q + 16));
        out.push(IpAddr::V6(Ipv6Addr::from_octets(o)));
    }
    let ghost mid = out@;
    let ok = read_answers(msg, q + rdlen, n - 1, qtype, out);
    proof {
        let rt = be16(msg@, p as int);
        let rl = be16(msg@, p + 8);
        assert(rt == rtype && rl == rdlen);
        if ok {
            let rest = answers_spec(msg@, q + rdlen, (n - 1) as nat, qtype)->0;
            if record_matches(qtype, rt, rl) {
                let v = seq![msg@.subrange(q as int, q + rdlen)] + rest;
                assert(mid.len() == before.len() + 1);
                assert forall|i: int| 0 <= i < v.len() implies ip_has_octets(#[trigger] out@[before.len() + i], v[i]) by {
                    if i == 0 {
                        assert(out@.take(mid.len() as int)[before.len() as int] == out@[before.len() as int]);
                    } else {
                        assert(ip_has_octets(out@[mid.len() + (i - 1)], rest[i - 1]));
                    }
                }
                assert(out@.take(before.len() as int) =~= out@.take(mid.len() as int).take(before.len() as int));
            } else {
                assert(mid == before);
            }
        }
    }
    ok
}

/// Read the addresses of type `qtype` out of a DNS response.
pub fn parse_answers(msg: &[u8], qtype: u16) -> (r: Result<Vec<IpAddr>, Error>)
    requires
        msg@.len() + 0x20000 <= usize::MAX,
    ensures
        match response_spec(msg@, qtype) {
            Some(v) => r matches Ok(out) && out@.len() == v.len()
                && forall|i: int| 0 <= i < v.len() ==> ip_has_octets(#[trigger] out@[i], v[i]),
            None => r matches Err(e) && e.kind_spec() == ErrorKind::InvalidData,
        },
{
    if msg.len() < 12 {
        return Err(bad_response());
    }
    let qd: usize = msg[4] as usize * 256 + msg[5] as usize;
    let an: usize = msg[6] as usize * 256 + msg[7] as usize;
    let pos = match skip_questions(msg, 12, qd) {
        None => return Err(bad_response()),
        Some(p) => p,
    };
    let mut out: Vec<IpAddr> = Vec::new();
    assert(qd as nat == be16(msg@, 4) as nat && an as nat == be16(msg@, 6) as nat);
    if read_answers(msg, pos, an, qtype, &mut out) {
        proof {
            let v = answers_spec(msg@, pos as int, an as nat, qtype)->0;
            assert forall|i: int| 0 <= i < v.len() implies ip_has_octets(#[trigger] out@[i], v[i]) by {
                assert(ip_has_octets(out@[0 + i], v[i]));
            }
        }
        Ok(out)
    } else {
        Err(bad_response())
    }
}

} // verus!
