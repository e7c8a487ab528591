//! What formatting and parsing promise of each other: the text of an IPv4
//! or IPv6 address, or of a socket address, parses back to the same
//! address.
use vstd::prelude::*;
use vstd::utf8::{encode_utf8, is_ascii_chars, is_ascii_chars_encode_utf8};
use crate::bytes_parse::{split_on, lemma_split_nonempty, digit_value, all_digits, digits_value, unsigned_body, parse_unsigned_spec, last_index, first_pair, pair_at};
use crate::net_parse::{ipv4_spec, socket_addr_spec_ok, ipv6_segments_spec, groups_spec, octets_of_segments};
use crate::net_addr::{SocketAddr, SocketAddrV4, SocketAddrV6, segment_of};
use crate::text_fmt::{digit_char, digits_text, dec_text, hex_text, ipv4_text, ipv6_text, ipv6_groups, socket_addr_text};

verus! {

/// The bytes of a sequence of ASCII characters.
pub open spec fn ascii_bytes(cs: Seq<char>) -> Seq<u8> {
    Seq::new(cs.len(), |i: int| cs[i] as u8)
}

/// A decimal digit's character is the ASCII digit.
proof fn lemma_digit_char(d: nat)
    requires
        d < 10,
    ensures
        digit_char(d) as u32 == 48 + d,
        digit_char(d) as u8 == 48 + d,
        '\0' <= digit_char(d) <= '\u{7f}',
{
    assert(digit_char(d) == ((48 + d) as u32) as char);
}

/// The decimal text of `n` is ASCII digits whose value is `n`.
proof fn lemma_dec_text(n: nat)
    ensures
        is_ascii_chars(dec_text(n)),
        dec_text(n).len() > 0,
        forall|i: int| 0 <= i < dec_text(n).len() ==> 48 <= #[trigger] (dec_text(n)[i] as u8) <= 57,
        all_digits(ascii_bytes(dec_text(n)), 10),
        digits_value(ascii_bytes(dec_text(n)), 10) == n,
    decreases n,
{
    let t = dec_text(n);
    let b = ascii_bytes(t);
    if n < 10 {
        lemma_digit_char(n);
        assert(t == seq![digit_char(n)]);
        assert(b.drop_last() =~= Seq::<u8>::empty());
        assert(digits_value(b.drop_last(), 10) == 0);
        assert(digit_value(b.last(), 10) == Some(n as int));
        assert(digits_value(b, 10) == digits_value(b.drop_last(), 10) * 10 + n);
    } else {
        assert(n / 10 < n);
        lemma_dec_text(n / 10);
        lemma_digit_char(n % 10);
        let p = dec_text(n / 10);
        assert(t == p.push(digit_char(n % 10)));
        assert(b.drop_last() =~= ascii_bytes(p));
        assert(b.last() == 48 + n % 10);
        assert(digit_value(b.last(), 10) == Some((n % 10) as int));
        assert forall|i: int| 0 <= i < b.len() implies (#[trigger] digit_value(b[i], 10)) is Some by {
            if i < b.len() - 1 {
                assert(b[i] == ascii_bytes(p)[i]);
            }
        }
        assert(digits_value(b, 10) == digits_value(b.drop_last(), 10) * 10 + n % 10);
        assert(digits_value(ascii_bytes(p), 10) == n / 10);
        assert((n / 10) * 10 + n % 10 == n) by (nonlinear_arith);
        assert(digits_value(b, 10) == n);
    }
}

/// Splitting text with a separator in it: the pieces before the separator,
/// then the pieces after it.
proof fn lemma_split_concat(a: Seq<u8>, b: Seq<u8>, sep: u8)
    ensures
        split_on(a + seq![sep] + b, sep) == split_on(a, sep) + split_on(b, sep),
    decreases b.len(),
{
    let s = a + seq![sep] + b;
    if b.len() == 0 {
        assert(s.drop_last() =~= a);
        assert(split_on(s, sep) =~= split_on(a, sep) + split_on(b, sep));
    } else {
        let b2 = b.drop_last();
        lemma_split_concat(a, b2, sep);
        assert(s.drop_last() =~= a + seq![sep] + b2);
        lemma_split_nonempty(b2, sep);
        let pa = split_on(a, sep);
        let pb = split_on(b2, sep);
        if b.last() == sep {
            assert(split_on(s, sep) =~= pa + pb.push(Seq::<u8>::empty()));
        } else {
            assert((pa + pb).update((pa + pb).len() - 1, (pa + pb).last().push(b.last())) =~= pa + pb.update(
                pb.len() - 1,
                pb.last().push(b.last()),
            ));
        }
        assert(split_on(s, sep) =~= split_on(a, sep) + split_on(b, sep));
    }
}

/// Text without the separator is a single piece.
proof fn lemma_split_none(a: Seq<u8>, sep: u8)
    requires
        forall|i: int| 0 <= i < a.len() ==> a[i] != sep,
    ensures
        split_on(a, sep) == seq![a],
    decreases a.len(),
{
    if a.len() > 0 {
        lemma_split_none(a.drop_last(), sep);
        assert(a.drop_last().push(a.last()) =~= a);
        let p = split_on(a.drop_last(), sep);
        assert(split_on(a, sep) == p.update(p.len() - 1, p.last().push(a.last())));
        assert(split_on(a, sep) =~= seq![a]);
    } else {
        assert(a =~= Seq::<u8>::empty());
    }
}

/// The decimal text of `n` (at most `max`) parses back to `n`, and holds
/// neither a `.` nor a `:`.
proof fn lemma_dec_field(n: nat, max: int)
    requires
        n <= max,
    ensures
        parse_unsigned_spec(ascii_bytes(dec_text(n)), 10, max) == Some(n as int),
        forall|i: int| 0 <= i < ascii_bytes(dec_text(n)).len() ==> #[trigger] ascii_bytes(dec_text(n))[i] != 46u8
            && ascii_bytes(dec_text(n))[i] != 58u8,
{
    lemma_dec_text(n);
    let b = ascii_bytes(dec_text(n));
    assert(b[0] == dec_text(n)[0] as u8);
    assert(unsigned_body(b) == b);
    assert forall|i: int| 0 <= i < b.len() implies #[trigger] b[i] != 46u8 && b[i] != 58u8 by {
        assert(b[i] == dec_text(n)[i] as u8);
    }
}

/// The dotted-decimal text of four octets is ASCII without a `:`, and its
/// bytes parse back to the octets.
proof fn lemma_ipv4_bytes(o: Seq<u8>)
    requires
        o.len() == 4,
    ensures
        is_ascii_chars(ipv4_text(o)),
        encode_utf8(ipv4_text(o)) == ascii_bytes(ipv4_text(o)),
        ipv4_spec(ascii_bytes(ipv4_text(o))) == Some(o),
        forall|i: int| 0 <= i < ascii_bytes(ipv4_text(o)).len() ==> #[trigger] ascii_bytes(ipv4_text(o))[i] != 58u8,
{
    let t0 = dec_text(o[0] as nat);
    let t1 = dec_text(o[1] as nat);
    let t2 = dec_text(o[2] as nat);
    let t3 = dec_text(o[3] as nat);
    lemma_dec_text(o[0] as nat);
    lemma_dec_text(o[1] as nat);
    lemma_dec_text(o[2] as nat);
    lemma_dec_text(o[3] as nat);
    let text = ipv4_text(o);
    assert(is_ascii_chars(text)) by {
        assert forall|i: int| 0 <= i < text.len() implies '\0' <= #[trigger] text[i] <= '\u{7f}' by {
            let l0 = t0.len() as int;
            let l1 = t1.len() as int;
            let l2 = t2.len() as int;
            if i < l0 {
                assert(text[i] == t0[i]);
            } else if i == l0 {
            } else if i < l0 + 1 + l1 {
                assert(text[i] == t1[i - l0 - 1]);
            } else if i == l0 + 1 + l1 {
            } else if i < l0 + 2 + l1 + l2 {
                assert(text[i] == t2[i - l0 - 2 - l1]);
            } else if i == l0 + 2 + l1 + l2 {
            } else {
                assert(text[i] == t3[i - l0 - 3 - l1 - l2]);
            }
        }
    }
    is_ascii_chars_encode_utf8(text);
    let bytes = encode_utf8(text);
    assert(bytes =~= ascii_bytes(text));
    let b0 = ascii_bytes(t0);
    let b1 = ascii_bytes(t1);
    let b2 = ascii_bytes(t2);
    let b3 = ascii_bytes(t3);
    assert('.' as u8 == 46u8);
    assert(ascii_bytes(text) =~= b0 + seq![46u8] + b1 + seq![46u8] + b2 + seq![46u8] + b3);
    lemma_dec_field(o[0] as nat, 255);
    lemma_dec_field(o[1] as nat, 255);
    lemma_dec_field(o[2] as nat, 255);
    lemma_dec_field(o[3] as nat, 255);
    lemma_split_none(b0, 46);
    lemma_split_none(b1, 46);
    lemma_split_none(b2, 46);
    lemma_split_none(b3, 46);
    lemma_split_concat(b0 + seq![46u8] + b1 + seq![46u8] + b2, b3, 46);
    lemma_split_concat(b0 + seq![46u8] + b1, b2, 46);
    lemma_split_concat(b0, b1, 46);
    let parts = split_on(bytes, 46);
    assert(parts =~= seq![b0, b1, b2, b3]);
    assert(parse_unsigned_spec(parts[0], 10, 255) == Some(o[0] as int));
    assert(parse_unsigned_spec(parts[1], 10, 255) == Some(o[1] as int));
    assert(parse_unsigned_spec(parts[2], 10, 255) == Some(o[2] as int));
    assert(parse_unsigned_spec(parts[3], 10, 255) == Some(o[3] as int));
    assert(forall|i: int| 0 <= i < 4 ==> (#[trigger] parse_unsigned_spec(parts[i], 10, 255)) is Some);
    assert(Seq::new(4, |i: int| parse_unsigned_spec(parts[i], 10, 255)->0 as u8) =~= o);
    let all = b0 + seq![46u8] + b1 + seq![46u8] + b2 + seq![46u8] + b3;
    assert forall|i: int| 0 <= i < all.len() implies #[trigger] all[i] != 58u8 by {
        let l0 = b0.len() as int;
        let l1 = b1.len() as int;
        let l2 = b2.len() as int;
        if i < l0 {
            assert(all[i] == b0[i]);
        } else if i == l0 {
        } else if i < l0 + 1 + l1 {
            assert(all[i] == b1[i - l0 - 1]);
        } else if i == l0 + 1 + l1 {
        } else if i < l0 + 2 + l1 + l2 {
            assert(all[i] == b2[i - l0 - 2 - l1]);
        } else if i == l0 + 2 + l1 + l2 {
        } else {
            assert(all[i] == b3[i - l0 - 3 - l1 - l2]);
        }
    }
}

/// Reading back what `to_string` writes for an IPv4 address gives the
/// same four octets.
pub proof fn lemma_ipv4_text_parses(o: Seq<u8>)
    requires
        o.len() == 4,
    ensures
        ipv4_spec(encode_utf8(ipv4_text(o))) == Some(o),
{
    lemma_ipv4_bytes(o);
}

/// Reading back what `to_string` writes for an IPv4 socket address gives
/// the same address.
pub proof fn lemma_socket_addr_v4_text_parses(a: SocketAddrV4)
    ensures
        socket_addr_spec_ok(encode_utf8(socket_addr_text(SocketAddr::V4(a))), SocketAddr::V4(a)),
{
    let o = a.ip.octets@;
    lemma_ipv4_bytes(o);
    lemma_dec_text(a.port as nat);
    lemma_dec_field(a.port as nat, 0xffff);
    let tip = ipv4_text(o);
    let tport = dec_text(a.port as nat);
    let text = socket_addr_text(SocketAddr::V4(a));
    assert(text == tip + seq![':'] + tport);
    assert(is_ascii_chars(text)) by {
        assert forall|i: int| 0 <= i < text.len() implies '\0' <= #[trigger] text[i] <= '\u{7f}' by {
            if i < tip.len() {
                assert(text[i] == tip[i]);
            } else if i > tip.len() {
                assert(text[i] == tport[i - tip.len() - 1]);
            }
        }
    }
    is_ascii_chars_encode_utf8(text);
    let bytes = encode_utf8(text);
    let bip = ascii_bytes(tip);
    let bport = ascii_bytes(tport);
    assert(':' as u8 == 58u8);
    assert(bytes =~= bip + seq![58u8] + bport);
    let k = bip.len() as int;
    assert(bytes[k] == 58u8);
    assert forall|j: int| k < j < bytes.len() implies bytes[j] != 58u8 by {
        assert(bytes[j] == bport[j - k - 1]);
    }
    assert(0 <= k < bytes.len() && bytes[k] == 58u8 && forall|j: int| k < j < bytes.len() ==> bytes[j] != 58u8);
    let i = choose|i: int| 0 <= i < bytes.len() && bytes[i] == 58u8 && forall|j: int| i < j < bytes.len() ==> bytes[j] != 58u8;
    if i < k {
        assert(bytes[k] != 58u8);
    } else if i > k {
        assert(bytes[i] == bport[i - k - 1]);
    }
    assert(last_index(bytes, 58) == Some(k));
    assert(bytes.take(k) =~= bip);
    assert(bytes.skip(k + 1) =~= bport);
    assert(bytes.len() > 0 && bytes[0] != 91u8) by {
        lemma_dec_text(o[0] as nat);
        let t0 = dec_text(o[0] as nat);
        assert(tip[0] == t0[0]);
        assert(48 <= (t0[0] as u8) <= 57);
        assert(bytes[0] == bip[0]);
        assert(bip[0] == tip[0] as u8);
    }
}


/// A hexadecimal digit's character reads back as that digit, and is
/// neither `:` nor `+` nor `]`.
proof fn lemma_hex_char(d: nat)
    requires
        d < 16,
    ensures
        digit_value(digit_char(d) as u8, 16) == Some(d as int),
        '\0' <= digit_char(d) <= '\u{7f}',
        digit_char(d) as u8 != 58u8,
        digit_char(d) as u8 != 43u8,
        digit_char(d) as u8 != 93u8,
{
    if d < 10 {
        assert(digit_char(d) == ((48 + d) as u32) as char);
    } else {
        assert(digit_char(d) == ((87 + d) as u32) as char);
    }
}

/// The hexadecimal text of `n` is ASCII digits whose value is `n`.
proof fn lemma_hex_text(n: nat)
    ensures
        is_ascii_chars(hex_text(n)),
        hex_text(n).len() > 0,
        all_digits(ascii_bytes(hex_text(n)), 16),
        digits_value(ascii_bytes(hex_text(n)), 16) == n,
        forall|i: int| 0 <= i < hex_text(n).len() ==> #[trigger] (hex_text(n)[i] as u8) != 58u8
            && hex_text(n)[i] as u8 != 43u8 && hex_text(n)[i] as u8 != 93u8,
    decreases n,
{
    let t = hex_text(n);
    let b = ascii_bytes(t);
    if n < 16 {
        lemma_hex_char(n);
        assert(t == seq![digit_char(n)]);
        assert(b.drop_last() =~= Seq::<u8>::empty());
        assert(digits_value(b.drop_last(), 16) == 0);
        assert(digits_value(b, 16) == digits_value(b.drop_last(), 16) * 16 + n);
    } else {
        assert(n / 16 < n);
        lemma_hex_text(n / 16);
        lemma_hex_char(n % 16);
        let p = hex_text(n / 16);
        assert(t == p.push(digit_char(n % 16)));
        assert(b.drop_last() =~= ascii_bytes(p));
        assert(forall|i: int| 0 <= i < p.len() ==> t[i] == p[i]);
        assert forall|i: int| 0 <= i < b.len() implies (#[trigger] digit_value(b[i], 16)) is Some by {
            if i < b.len() - 1 {
                assert(b[i] == ascii_bytes(p)[i]);
            }
        }
        assert(digits_value(b, 16) == digits_value(b.drop_last(), 16) * 16 + n % 16);
        assert(digits_value(ascii_bytes(p), 16) == n / 16);
        assert((n / 16) * 16 + n % 16 == n) by (nonlinear_arith);
    }
}

/// The hexadecimal text of a group parses back to the group.
proof fn lemma_hex_field(n: nat)
    requires
        n <= 0xffff,
    ensures
        parse_unsigned_spec(ascii_bytes(hex_text(n)), 16, 0xffff) == Some(n as int),
        forall|i: int| 0 <= i < ascii_bytes(hex_text(n)).len() ==> #[trigger] ascii_bytes(hex_text(n))[i] != 58u8,
{
    lemma_hex_text(n);
    let b = ascii_bytes(hex_text(n));
    assert(b[0] == hex_text(n)[0] as u8);
    assert(unsigned_body(b) == b);
    assert forall|i: int| 0 <= i < b.len() implies #[trigger] b[i] != 58u8 by {
        assert(b[i] == hex_text(n)[i] as u8);
    }
}

/// The bytes of one group of an address in hexadecimal.
pub open spec fn group_bytes(o: Seq<u8>, i: int) -> Seq<u8> {
    ascii_bytes(hex_text(segment_of(o, i) as nat))
}

/// The first `k` groups of the text are ASCII, split at `:` into the
/// groups' own texts, and never hold two `:` in a row.
proof fn lemma_groups_bytes(o: Seq<u8>, k: nat)
    requires
        o.len() == 16,
        1 <= k <= 8,
    ensures
        is_ascii_chars(ipv6_groups(o, k)),
        ascii_bytes(ipv6_groups(o, k)).len() > 0,
        ascii_bytes(ipv6_groups(o, k)).last() != 58u8,
        split_on(ascii_bytes(ipv6_groups(o, k)), 58) == Seq::new(k, |i: int| group_bytes(o, i)),
        forall|i: int| !#[trigger] pair_at(ascii_bytes(ipv6_groups(o, k)), i, 58, 58),
        forall|i: int| 0 <= i < ipv6_groups(o, k).len() ==> #[trigger] ipv6_groups(o, k)[i] as u8 != 93u8,
    decreases k,
{
    let t = ipv6_groups(o, k);
    let b = ascii_bytes(t);
    let seg = segment_of(o, k - 1) as nat;
    lemma_hex_text(seg);
    lemma_hex_field(seg);
    let h = hex_text(seg);
    let hb = ascii_bytes(h);
    lemma_split_none(hb, 58);
    if k == 1 {
        assert(t == h);
        assert(is_ascii_chars(t));
        assert(b =~= hb);
        assert(b.last() == h[h.len() - 1] as u8);
        assert(split_on(b, 58) =~= Seq::new(k, |i: int| group_bytes(o, i)));
        assert forall|i: int| !#[trigger] pair_at(b, i, 58, 58) by {
            if pair_at(b, i, 58, 58) {
                assert(b[i] == h[i] as u8);
            }
        }
    } else {
        lemma_groups_bytes(o, (k - 1) as nat);
        let pt = ipv6_groups(o, (k - 1) as nat);
        let pb = ascii_bytes(pt);
        assert(t == pt + seq![':'] + h);
        assert(is_ascii_chars(t)) by {
            assert forall|i: int| 0 <= i < t.len() implies '\0' <= #[trigger] t[i] <= '\u{7f}' by {
                if i < pt.len() {
                    assert(t[i] == pt[i]);
                } else if i > pt.len() {
                    assert(t[i] == h[i - pt.len() - 1]);
                }
            }
        }
        assert(':' as u8 == 58u8);
        assert(b =~= pb + seq![58u8] + hb);
        assert(b.last() == hb.last());
        assert(hb.last() == h[h.len() - 1] as u8);
        lemma_split_concat(pb, hb, 58);
        assert(split_on(b, 58) =~= Seq::new(k, |i: int| group_bytes(o, i)));
        assert forall|i: int| !#[trigger] pair_at(b, i, 58, 58) by {
            if pair_at(b, i, 58, 58) {
                if i + 1 < pb.len() {
                    assert(pair_at(pb, i, 58, 58));
                } else if i + 1 == pb.len() {
                    assert(b[i] == pb.last());
                } else if i == pb.len() {
                    assert(b[i + 1] == hb[0]);
                    assert(hb[0] == h[0] as u8);
                } else {
                    assert(b[i] == hb[i - pb.len() - 1]);
                    assert(hb[i - pb.len() - 1] == h[i - pb.len() - 1] as u8);
                }
            }
        }
    }
}

/// Reading back what `to_string` writes for an IPv6 address gives the
/// same sixteen octets.
pub proof fn lemma_ipv6_text_parses(o: Seq<u8>)
    requires
        o.len() == 16,
    ensures
        ipv6_segments_spec(encode_utf8(ipv6_text(o))) matches Some(g) && octets_of_segments(g) == o,
{
    lemma_groups_bytes(o, 8);
    let t = ipv6_text(o);
    assert(t == ipv6_groups(o, 8));
    is_ascii_chars_encode_utf8(t);
    let bytes = encode_utf8(t);
    assert(bytes =~= ascii_bytes(t));
    assert(!(exists|i: int| pair_at(bytes, i, 58, 58)));
    assert(first_pair(bytes, 58, 58) is None);
    let parts = split_on(bytes, 58);
    assert(parts == Seq::new(8, |i: int| group_bytes(o, i)));
    assert forall|i: int| 0 <= i < 8 implies #[trigger] parse_unsigned_spec(parts[i], 16, 0xffff) == Some(segment_of(o, i) as int) by {
        lemma_hex_field(segment_of(o, i) as nat);
    }
    assert(forall|i: int| 0 <= i < parts.len() ==> (#[trigger] parse_unsigned_spec(parts[i], 16, 0xffff)) is Some);
    let g = Seq::new(8, |i: int| parse_unsigned_spec(parts[i], 16, 0xffff)->0 as u16);
    assert(groups_spec(bytes) == Some(g));
    assert forall|j: int| 0 <= j < 16 implies #[trigger] octets_of_segments(g)[j] == o[j] by {
        let q = j / 2;
        assert(0 <= q < 8);
        assert(g[q] == segment_of(o, q));
        let hi = o[2 * q] as int;
        let lo = o[2 * q + 1] as int;
        assert(segment_of(o, q) as int == hi * 256 + lo);
        assert((hi * 256 + lo) / 256 == hi && (hi * 256 + lo) % 256 == lo) by (nonlinear_arith)
            requires
                0 <= hi < 256,
                0 <= lo < 256,
        ;
        if j % 2 == 0 {
            assert(j == 2 * q);
        } else {
            assert(j == 2 * q + 1);
        }
    }
    assert(octets_of_segments(g) =~= o);
}

/// Reading back what `to_string` writes for an IPv6 socket address gives
/// the same address.
pub proof fn lemma_socket_addr_v6_text_parses(a: SocketAddrV6)
    ensures
        socket_addr_spec_ok(encode_utf8(socket_addr_text(SocketAddr::V6(a))), SocketAddr::V6(a)),
{
    let o = a.ip.octets@;
    assert(o.len() == 16);
    lemma_ipv6_text_parses(o);
    lemma_groups_bytes(o, 8);
    lemma_dec_text(a.port as nat);
    lemma_dec_field(a.port as nat, 0xffff);
    let t6 = ipv6_text(o);
    assert(t6 == ipv6_groups(o, 8));
    let tport = dec_text(a.port as nat);
    let text = socket_addr_text(SocketAddr::V6(a));
    assert(text == seq!['['] + t6 + seq![']', ':'] + tport);
    let k = t6.len() as int;
    assert(is_ascii_chars(text)) by {
        assert forall|i: int| 0 <= i < text.len() implies '\0' <= #[trigger] text[i] <= '\u{7f}' by {
            if 1 <= i < 1 + k {
                assert(text[i] == t6[i - 1]);
            } else if i >= k + 3 {
                assert(text[i] == tport[i - k - 3]);
            }
        }
    }
    is_ascii_chars_encode_utf8(text);
    is_ascii_chars_encode_utf8(t6);
    let bytes = encode_utf8(text);
    let b6 = ascii_bytes(t6);
    let bport = ascii_bytes(tport);
    assert(encode_utf8(t6) =~= b6);
    assert(']' as u8 == 93u8);
    assert(':' as u8 == 58u8);
    assert('[' as u8 == 91u8);
    assert(bytes =~= seq![91u8] + b6 + seq![93u8, 58u8] + bport) by {
        assert forall|i: int| 0 <= i < bytes.len() implies bytes[i] == (seq![91u8] + b6 + seq![93u8, 58u8] + bport)[i] by {
            assert(bytes[i] == text[i] as u8);
            if 1 <= i < 1 + k {
                assert(text[i] == t6[i - 1]);
            } else if i >= k + 3 {
                assert(text[i] == tport[i - k - 3]);
            }
        }
    }
    let rest = bytes.skip(1);
    assert(rest =~= b6 + seq![93u8, 58u8] + bport);
    assert(pair_at(rest, k, 93, 58));
    assert forall|j: int| 0 <= j < k implies !#[trigger] pair_at(rest, j, 93, 58) by {
        assert(rest[j] == b6[j]);
        assert(b6[j] == t6[j] as u8);
    }
    let i = choose|i: int| pair_at(rest, i, 93, 58) && forall|j: int| 0 <= j < i ==> !pair_at(rest, j, 93, 58);
    if i < k {
        assert(!pair_at(rest, i, 93, 58));
    } else if i > k {
        assert(!pair_at(rest, k, 93, 58));
    }
    assert(first_pair(rest, 93, 58) == Some(k));
    assert(rest.take(k) =~= b6);
    assert(rest.skip(k + 2) =~= bport);
}

} // verus!
