//! The text-driven parts of host name resolution: `/etc/hosts` lookup, the
//! first `nameserver` of `/etc/resolv.conf`, splitting `host:port`, and
//! combining the answers of the two DNS queries.
use vstd::prelude::*;
use vstd::string::StringSliceAdditionalSpecFns;
use vstd::utf8::encode_utf8;
use crate::bytes_parse::{parse_unsigned_spec, parse_unsigned};
use crate::cli::string_from_chars;
use crate::io_error::{Error, ErrorKind, Repr};
use crate::lines::{
    lines_spec, lines, before_char, strip_comment, words_spec, split_whitespace, trim_spec, trim,
    char_views,
};
use crate::net_addr::IpAddr;
use crate::net_parse::{ip_parses, ip_spec_ok, parse_ip_bytes};
use crate::text::str_chars;

verus! {

/// `c` with ASCII uppercase letters turned to lowercase.
pub open spec fn ascii_lower(c: char) -> char {
    if 'A' <= c && c <= 'Z' { ((c as u32) + 32) as char } else { c }
}

/// Whether two strings are equal ignoring ASCII case.
pub open spec fn eq_ignore_case(a: Seq<char>, b: Seq<char>) -> bool {
    a.len() == b.len() && forall|i: int| 0 <= i < a.len() ==> #[trigger] ascii_lower(a[i]) == ascii_lower(b[i])
}

/// Host names match regardless of ASCII case: a name matches itself with
/// any of its ASCII letters turned to upper case, and two names of
/// different lengths never match.
pub proof fn lemma_case_blind(a: Seq<char>, up: Seq<bool>)
    requires
        up.len() == a.len(),
    ensures
        eq_ignore_case(a, Seq::new(a.len(), |i: int| if up[i] && 'a' <= a[i] && a[i] <= 'z' {
            ((a[i] as u32) - 32) as char
        } else {
            a[i]
        })),
        forall|b: Seq<char>| b.len() != a.len() ==> !eq_ignore_case(a, b),
{
    let b = Seq::new(a.len(), |i: int| if up[i] && 'a' <= a[i] && a[i] <= 'z' {
        ((a[i] as u32) - 32) as char
    } else {
        a[i]
    });
    assert forall|i: int| 0 <= i < a.len() implies #[trigger] ascii_lower(a[i]) == ascii_lower(b[i]) by {
        if up[i] && 'a' <= a[i] && a[i] <= 'z' {
            let u = ((a[i] as u32) - 32) as char;
            assert(b[i] == u);
            assert('A' <= u && u <= 'Z');
            assert(ascii_lower(u) == (((u as u32) + 32) as char));
            assert(((u as u32) + 32) as char == a[i]);
        }
    }
}

fn lower(c: char) -> (l: char)
    ensures
        l == ascii_lower(c),
{
    if 'A' <= c && c <= 'Z' {
        let b: u8 = (c as u8) + 32;
        let l = b as char;
        assert(l == ((c as u32) + 32) as char);
        l
    } else {
        c
    }
}

/// Compare two character strings ignoring ASCII case.
pub fn eq_ignore_ascii_case(a: &Vec<char>, b: &Vec<char>) -> (r: bool)
    ensures
        r == eq_ignore_case(a@, b@),
{
    if a.len() != b.len() {
        return false;
    }
    let mut i: usize = 0;
    while i < a.len()
        invariant
            i <= a@.len(),
            a@.len() == b@.len(),
            forall|j: int| 0 <= j < i ==> #[trigger] ascii_lower(a@[j]) == ascii_lower(b@[j]),
        decreases a@.len() - i,
    {
        if lower(a[i]) != lower(b[i]) {
            return false;
        }
        i += 1;
    }
    true
}

/// The address a host-file line gives for `host`: the line's first word,
/// when a later word names `host` and the first word is an address.
pub open spec fn host_line_ip(line: Seq<char>, host: Seq<char>) -> Option<Seq<char>> {
    let w = words_spec(before_char(line, '#'));
    if w.len() > 0 && (exists|j: int| 1 <= j < w.len() && #[trigger] eq_ignore_case(w[j], host))
        && ip_parses(encode_utf8(w[0])) {
        Some(w[0])
    } else {
        None
    }
}

/// The address words the lines give for `host`, in order.
pub open spec fn hosts_spec(ls: Seq<Seq<char>>, host: Seq<char>) -> Seq<Seq<char>>
    decreases ls.len(),
{
    if ls.len() == 0 {
        Seq::empty()
    } else {
        hosts_spec(ls.drop_last(), host) + match host_line_ip(ls.last(), host) {
            Some(ip) => seq![ip],
            None => Seq::empty(),
        }
    }
}

/// Whether word `j` (after the first) of a hosts-file line equals `host`
/// ignoring ASCII case, and the line starts with the address `a`.
pub open spec fn line_maps(line: Seq<char>, host: Seq<char>, j: int, a: Seq<char>) -> bool {
    let w = words_spec(before_char(line, '#'));
    &&& 1 <= j < w.len()
    &&& eq_ignore_case(w[j], host)
    &&& ip_parses(encode_utf8(w[0]))
    &&& a == w[0]
}

/// The lookup gives exactly the first words of the lines that name the
/// host by any of their later words: an address is in the result if and
/// only if some line starts with it and names the host, whichever of its
/// aliases does.
pub proof fn lemma_hosts_lookup_matches_aliases(ls: Seq<Seq<char>>, host: Seq<char>, a: Seq<char>)
    ensures
        hosts_spec(ls, host).contains(a) <==> exists|i: int, j: int| 0 <= i < ls.len() && #[trigger] line_maps(ls[i], host, j, a),
    decreases ls.len(),
{
    if ls.len() > 0 {
        let pre = ls.drop_last();
        lemma_hosts_lookup_matches_aliases(pre, host, a);
        let last = ls.last();
        let w = words_spec(before_char(last, '#'));
        let hs = hosts_spec(ls, host);
        let hp = hosts_spec(pre, host);
        if hs.contains(a) {
            let k = choose|k: int| 0 <= k < hs.len() && hs[k] == a;
            if k < hp.len() {
                assert(hp[k] == a);
                assert(hp.contains(a));
                let (i, j) = choose|i: int, j: int| 0 <= i < pre.len() && #[trigger] line_maps(pre[i], host, j, a);
                assert(ls[i] == pre[i]);
                assert(line_maps(ls[i], host, j, a));
            } else {
                assert(host_line_ip(last, host) is Some);
                let j = choose|j: int| 1 <= j < w.len() && #[trigger] eq_ignore_case(w[j], host);
                assert(ls[ls.len() - 1] == last);
                assert(line_maps(ls[ls.len() - 1], host, j, a));
            }
        }
        if exists|i: int, j: int| 0 <= i < ls.len() && #[trigger] line_maps(ls[i], host, j, a) {
            let (i, j) = choose|i: int, j: int| 0 <= i < ls.len() && #[trigger] line_maps(ls[i], host, j, a);
            if i < ls.len() - 1 {
                assert(pre[i] == ls[i]);
                assert(line_maps(pre[i], host, j, a));
                assert(hp.contains(a));
                let k = choose|k: int| 0 <= k < hp.len() && hp[k] == a;
                assert(hs[k] == a);
            } else {
                assert(ls[i] == last);
                assert(eq_ignore_case(w[j], host));
                assert(host_line_ip(last, host) == Some(a));
                assert(hs[hp.len() as int] == a);
            }
        }
    }
}

/// Parse an address written as characters.
fn parse_ip_chars(w: &Vec<char>) -> (r: Option<IpAddr>)
    ensures
        r matches Some(a) ==> ip_spec_ok(encode_utf8(w@), a),
        r is None <==> !ip_parses(encode_utf8(w@)),
{
    let s = string_from_chars(w);
    parse_ip_bytes(s.as_str().as_bytes())
}

/// The addresses `/etc/hosts` text gives for `host`.
pub fn hosts_lookup(text: &str, host: &str) -> (r: Vec<IpAddr>)
    ensures
        r@.len() == hosts_spec(lines_spec(text@), host@).len(),
        forall|i: int| 0 <= i < r@.len() ==> ip_spec_ok(encode_utf8(hosts_spec(lines_spec(text@), host@)[i]), #[trigger] r@[i]),
{
    let tv = str_chars(text);
    let hv = str_chars(host);
    let ls = lines(&tv);
    let ghost lsv = lines_spec(text@);
    let mut out: Vec<IpAddr> = Vec::new();
    let mut i: usize = 0;
    while i < ls.len()
        invariant
            i <= ls@.len(),
            char_views(ls@) == lsv,
            lsv == lines_spec(text@),
            hv@ == host@,
            out@.len() == hosts_spec(lsv.take(i as int), host@).len(),
            forall|k: int| 0 <= k < out@.len() ==> ip_spec_ok(encode_utf8(hosts_spec(lsv.take(i as int), host@)[k]), #[trigger] out@[k]),
        decreases ls@.len() - i,
    {
        let line = &ls[i];
        assert(line@ == lsv[i as int]);
        let ghost pre = lsv.take(i as int);
        assert(lsv.take(i as int + 1).drop_last() =~= pre);
        assert(lsv.take(i as int + 1).last() == line@);
        let content = strip_comment(line);
        let words = split_whitespace(&content);
        let ghost wv = words_spec(before_char(line@, '#'));
        assert(char_views(words@) == wv);
        let mut found = false;
        if words.len() > 0 {
            let mut j: usize = 1;
            while j < words.len() && !found
                invariant
                    1 <= j <= words@.len(),
                    char_views(words@) == wv,
                    hv@ == host@,
                    found ==> exists|q: int| 1 <= q < wv.len() && #[trigger] eq_ignore_case(wv[q], host@),
                    !found ==> forall|q: int| 1 <= q < j ==> !#[trigger] eq_ignore_case(wv[q], host@),
                decreases words@.len() - j,
            {
                assert(words@[j as int]@ == wv[j as int]);
                if eq_ignore_ascii_case(&words[j], &hv) {
                    found = true;
                }
                j += 1;
            }
            if found {
                assert(words@[0]@ == wv[0]);
                match parse_ip_chars(&words[0]) {
                    Some(a) => {
                        out.push(a);
                        proof {
                            assert(host_line_ip(line@, host@) == Some(wv[0]));
                            let hs = hosts_spec(lsv.take(i as int + 1), host@);
                            assert(hs =~= hosts_spec(pre, host@) + seq![wv[0]]);
                            assert forall|k: int| 0 <= k < out@.len() implies ip_spec_ok(encode_utf8(hs[k]), #[trigger] out@[k]) by {
                                if k < out@.len() - 1 {
                                    assert(hs[k] == hosts_spec(pre, host@)[k]);
                                }
                            }
                        }
                    },
                    None => {
                        assert(host_line_ip(line@, host@) is None);
                        assert(hosts_spec(lsv.take(i as int + 1), host@) =~= hosts_spec(pre, host@));
                    },
                }
            } else {
                assert(host_line_ip(line@, host@) is None);
                assert(hosts_spec(lsv.take(i as int + 1), host@) =~= hosts_spec(pre, host@));
            }
        } else {
            assert(host_line_ip(line@, host@) is None);
            assert(hosts_spec(lsv.take(i as int + 1), host@) =~= hosts_spec(pre, host@));
        }
        i += 1;
    }
    assert(lsv.take(ls@.len() as int) =~= lsv);
    out
}

/// Whether `s` starts with `p`.
pub open spec fn has_prefix(s: Seq<char>, p: Seq<char>) -> bool {
    s.len() >= p.len() && s.take(p.len() as int) == p
}

/// Test whether `s` starts with `p`.
pub fn starts_with(s: &Vec<char>, p: &Vec<char>) -> (b: bool)
    ensures
        b == has_prefix(s@, p@),
{
    if s.len() < p.len() {
        return false;
    }
    let mut i: usize = 0;
    while i < p.len()
        invariant
            i <= p@.len(),
            p@.len() <= s@.len(),
            forall|j: int| 0 <= j < i ==> s@[j] == p@[j],
        decreases p@.len() - i,
    {
        if s[i] != p[i] {
            proof {
                if has_prefix(s@, p@) {
                    assert(s@.take(p@.len() as int)[i as int] == p@[i as int]);
                }
            }
            return false;
        }
        i += 1;
    }
    assert(s@.take(p@.len() as int) =~= p@);
    true
}

/// The characters of `v` from index `k` on.
fn tail_from(v: &Vec<char>, k: usize) -> (r: Vec<char>)
    requires
        k <= v@.len(),
    ensures
        r@ == v@.skip(k as int),
{
    let mut r: Vec<char> = Vec::new();
    let mut i: usize = k;
    while i < v.len()
        invariant
            k <= i <= v@.len(),
            r@ == v@.subrange(k as int, i as int),
        decreases v@.len() - i,
    {
        r.push(v[i]);
        i += 1;
        assert(r@ =~= v@.subrange(k as int, i as int));
    }
    assert(r@ =~= v@.skip(k as int));
    r
}

/// The name-server address a `resolv.conf` line gives, if any.
pub open spec fn ns_line(line: Seq<char>) -> Option<Seq<char>> {
    let l = trim_spec(before_char(line, '#'));
    if has_prefix(l, "nameserver"@) {
        let rest = trim_spec(l.skip(10));
        if ip_parses(encode_utf8(rest)) { Some(rest) } else { None }
    } else {
        None
    }
}

/// The first name-server address the lines give.
pub open spec fn resolv_spec(ls: Seq<Seq<char>>) -> Option<Seq<char>>
    decreases ls.len(),
{
    if ls.len() == 0 {
        None
    } else {
        match ns_line(ls[0]) {
            Some(a) => Some(a),
            None => resolv_spec(ls.skip(1)),
        }
    }
}

/// The name server picked is the one of the first line that gives one:
/// when there is such a line its address is the answer, and there is an
/// answer only when some line gives one.
pub proof fn lemma_first_nameserver(ls: Seq<Seq<char>>)
    ensures
        resolv_spec(ls) matches Some(a) ==> exists|i: int| 0 <= i < ls.len() && #[trigger] ns_line(ls[i])
            == Some(a) && forall|j: int| 0 <= j < i ==> ns_line(ls[j]) is None,
        resolv_spec(ls) is None ==> forall|i: int| 0 <= i < ls.len() ==> #[trigger] ns_line(ls[i]) is None,
    decreases ls.len(),
{
    if ls.len() > 0 {
        let rest = ls.skip(1);
        lemma_first_nameserver(rest);
        assert forall|i: int| 0 <= i < rest.len() implies #[trigger] rest[i] == ls[i + 1] by {}
        match ns_line(ls[0]) {
            Some(a) => {
                assert(ns_line(ls[0]) == Some(a));
            },
            None => {
                if let Some(a) = resolv_spec(rest) {
                    let i = choose|i: int| 0 <= i < rest.len() && #[trigger] ns_line(rest[i]) == Some(a)
                        && forall|j: int| 0 <= j < i ==> ns_line(rest[j]) is None;
                    assert(ns_line(ls[i + 1]) == Some(a));
                    assert forall|j: int| 0 <= j < i + 1 implies ns_line(ls[j]) is None by {
                        if j > 0 {
                            assert(ls[j] == rest[j - 1]);
                        }
                    }
                } else {
                    assert forall|i: int| 0 <= i < ls.len() implies #[trigger] ns_line(ls[i]) is None by {
                        if i > 0 {
                            assert(ls[i] == rest[i - 1]);
                        }
                    }
                }
            },
        }
    }
}

/// The first `nameserver` address of `/etc/resolv.conf` text.
pub fn resolv_conf_nameserver(text: &str) -> (r: Option<IpAddr>)
    ensures
        match resolv_spec(lines_spec(text@)) {
            Some(a) => r matches Some(x) && ip_spec_ok(encode_utf8(a), x),
            None => r is None,
        },
{
    proof { reveal_strlit("nameserver"); }
    let tv = str_chars(text);
    let ls = lines(&tv);
    let kw = str_chars("nameserver");
    let ghost lsv = lines_spec(text@);
    assert(lsv.skip(0) =~= lsv);
    let mut i: usize = 0;
    while i < ls.len()
        invariant
            i <= ls@.len(),
            char_views(ls@) == lsv,
            lsv == lines_spec(text@),
            kw@ == "nameserver"@,
            kw@.len() == 10,
            resolv_spec(lsv) == resolv_spec(lsv.skip(i as int)),
        decreases ls@.len() - i,
    {
        let line = &ls[i];
        assert(line@ == lsv[i as int]);
        assert(lsv.skip(i as int)[0] == lsv[i as int]);
        assert(lsv.skip(i as int).skip(1) =~= lsv.skip(i + 1));
        let content = strip_comment(line);
        let l = trim(&content);
        if starts_with(&l, &kw) {
            let rest = tail_from(&l, 10);
            let addr = trim(&rest);
            match parse_ip_chars(&addr) {
                Some(a) => {
                    return Some(a);
                },
                None => {},
            }
        }
        i += 1;
    }
    None
}

/// The value of the `key: value` line of `rustc -vV` output.
pub open spec fn field_spec(ls: Seq<Seq<char>>, prefix: Seq<char>) -> Option<Seq<char>>
    decreases ls.len(),
{
    if ls.len() == 0 {
        None
    } else if has_prefix(ls[0], prefix) {
        Some(trim_spec(ls[0].skip(prefix.len() as int)))
    } else {
        field_spec(ls.skip(1), prefix)
    }
}

/// Read the trimmed value of the first line starting with `key: ` from
/// `rustc -vV` output.
pub fn rustc_field(output: &str, key: &str) -> (r: Option<String>)
    ensures
        match field_spec(lines_spec(output@), key@ + ": "@) {
            Some(v) => r matches Some(x) && x@ == v,
            None => r is None,
        },
{
    proof { reveal_strlit(": "); }
    let tv = str_chars(output);
    let ls = lines(&tv);
    let mut pre = str_chars(key);
    pre.push(':');
    pre.push(' ');
    assert(pre@ =~= key@ + ": "@);
    let ghost lsv = lines_spec(output@);
    assert(lsv.skip(0) =~= lsv);
    let mut i: usize = 0;
    while i < ls.len()
        invariant
            i <= ls@.len(),
            char_views(ls@) == lsv,
            lsv == lines_spec(output@),
            pre@ == key@ + ": "@,
            field_spec(lsv, pre@) == field_spec(lsv.skip(i as int), pre@),
        decreases ls@.len() - i,
    {
        let line = &ls[i];
        assert(line@ == lsv[i as int]);
        assert(lsv.skip(i as int)[0] == lsv[i as int]);
        assert(lsv.skip(i as int).skip(1) =~= lsv.skip(i + 1));
        if starts_with(line, &pre) {
            let rest = tail_from(line, pre.len());
            let v = trim(&rest);
            return Some(string_from_chars(&v));
        }
        i += 1;
    }
    None
}

/// Whether `]:` occurs at index `i`.
pub open spec fn bracket_at(rest: Seq<char>, i: int) -> bool {
    0 <= i && i + 1 < rest.len() && rest[i] == ']' && rest[i + 1] == ':'
}

/// How a `host:port` string splits: `[host]:port` (up to the first `]:`),
/// or at the last `:`.
pub open spec fn host_port_split(s: Seq<char>) -> Option<(Seq<char>, Seq<char>)> {
    if s.len() > 0 && s[0] == '[' {
        let rest = s.skip(1);
        if exists|i: int| #[trigger] bracket_at(rest, i) {
            let i = choose|i: int| #[trigger] bracket_at(rest, i) && forall|j: int| 0 <= j < i ==> !bracket_at(rest, j);
            Some((rest.take(i), rest.skip(i + 2)))
        } else {
            None
        }
    } else {
        if exists|i: int| 0 <= i < s.len() && s[i] == ':' {
            let i = choose|i: int| 0 <= i < s.len() && s[i] == ':' && forall|j: int| i < j < s.len() ==> s[j] != ':';
            Some((s.take(i), s.skip(i + 1)))
        } else {
            None
        }
    }
}

/// Split `host:port` (or `[host]:port`) into the host and the port number.
/// A bracket without `]:` is an invalid address, a missing colon a missing
/// port, and a port that is not a decimal `u16` an invalid port; all three
/// are `InvalidInput`.
pub fn split_host_port(s: &str) -> (r: Result<(String, u16), Error>)
    ensures
        match host_port_split(s@) {
            Some((h, p)) => match parse_unsigned_spec(encode_utf8(p), 10, 0xffff) {
                Some(n) => r matches Ok(x) && x.0@ == h && x.1 == n,
                None => r matches Err(e) && e.kind_spec() == ErrorKind::InvalidInput,
            },
            None => r matches Err(e) && e.kind_spec() == ErrorKind::InvalidInput,
        },
{
    let v = str_chars(s);
    let n = v.len();
    let (h, p): (Vec<char>, Vec<char>) = if n > 0 && v[0] == '[' {
        let rest = tail_from(&v, 1);
        let mut i: usize = 0;
        let mut found = false;
        while i < rest.len() && i + 1 < rest.len() && !found
            invariant
                i <= rest@.len(),
                rest@ == s@.skip(1),
                !found ==> forall|j: int| 0 <= j < i ==> !bracket_at(rest@, j),
                found ==> bracket_at(rest@, i as int) && forall|j: int| 0 <= j < i ==> !bracket_at(rest@, j),
            decreases rest@.len() - i, if found { 0int } else { 1int },
        {
            if rest[i] == ']' && rest[i + 1] == ':' {
                found = true;
            } else {
                i += 1;
            }
        }
        if !found {
            return Err(Error::new(ErrorKind::InvalidInput, "invalid socket address"));
        }
        proof {
            let c = choose|c: int| #[trigger] bracket_at(rest@, c) && forall|j: int| 0 <= j < c ==> !bracket_at(rest@, j);
            if c < i {
            } else if c > i {
            }
            assert(c == i);
        }
        let mut hv: Vec<char> = Vec::new();
        let mut k: usize = 0;
        while k < i
            invariant
                k <= i,
                i + 1 < rest@.len(),
                hv@ == rest@.take(k as int),
            decreases i - k,
        {
            hv.push(rest[k]);
            k += 1;
            assert(hv@ =~= rest@.take(k as int));
        }
        (hv, tail_from(&rest, i + 2))
    } else {
        let mut i: usize = n;
        let mut found = false;
        while i > 0 && !found
            invariant
                i <= n,
                n == v@.len(),
                v@ == s@,
                !found ==> forall|j: int| i <= j < n ==> v@[j] != ':',
                found ==> i < n && v@[i as int] == ':' && forall|j: int| i < j < n ==> v@[j] != ':',
            decreases i, if found { 0int } else { 1int },
        {
            if v[i - 1] == ':' {
                found = true;
                i = i - 1;
            } else {
                i -= 1;
            }
        }
        if !found {
            return Err(Error::new(ErrorKind::InvalidInput, "missing port"));
        }
        proof {
            let c = choose|c: int| 0 <= c < s@.len() && s@[c] == ':' && forall|j: int| c < j < s@.len() ==> s@[j] != ':';
            if c < i {
            } else if c > i {
            }
            assert(c == i);
        }
        let mut hv: Vec<char> = Vec::new();
        let mut k: usize = 0;
        while k < i
            invariant
                k <= i,
                i < v@.len(),
                hv@ == v@.take(k as int),
            decreases i - k,
        {
            hv.push(v[k]);
            k += 1;
            assert(hv@ =~= v@.take(k as int));
        }
        (hv, tail_from(&v, i + 1))
    };
    let ps = string_from_chars(&p);
    match parse_unsigned(ps.as_str().as_bytes(), 10, 0xffff) {
        Some(port) => Ok((string_from_chars(&h), port as u16)),
        None => Err(Error::new(ErrorKind::InvalidInput, "invalid port")),
    }
}

/// What a lookup decides before any network query: an address literal is
/// the answer; otherwise the `/etc/hosts` addresses, if there are any.
pub fn lookup_local(host: &str, hosts_text: Option<&str>) -> (r: Option<Vec<IpAddr>>)
    ensures
        ip_parses(host.spec_bytes()) ==> (r matches Some(v) && v@.len() == 1 && ip_spec_ok(host.spec_bytes(), v@[0])),
        !ip_parses(host.spec_bytes()) ==> match hosts_text {
            Some(t) => if hosts_spec(lines_spec(t@), host@).len() > 0 {
                r matches Some(v) && v@.len() == hosts_spec(lines_spec(t@), host@).len()
                    && forall|i: int| 0 <= i < v@.len() ==> ip_spec_ok(encode_utf8(hosts_spec(lines_spec(t@), host@)[i]), #[trigger] v@[i])
            } else {
                r is None
            },
            None => r is None,
        },
{
    match parse_ip_bytes(host.as_bytes()) {
        Some(a) => {
            let mut v: Vec<IpAddr> = Vec::new();
            v.push(a);
            return Some(v);
        },
        None => {},
    }
    match hosts_text {
        Some(t) => {
            let v = hosts_lookup(t, host);
            if v.len() > 0 { Some(v) } else { None }
        },
        None => None,
    }
}

/// Combine the answers of the A and AAAA queries: their addresses in that
/// order (a failed query contributes none), or `NotFound` when there are
/// none at all.
pub fn combine_answers(a: Result<Vec<IpAddr>, Error>, aaaa: Result<Vec<IpAddr>, Error>) -> (r: Result<Vec<IpAddr>, Error>)
    ensures
        ({
            let va = match a { Ok(v) => v@, Err(_) => Seq::<IpAddr>::empty() };
            let vb = match aaaa { Ok(v) => v@, Err(_) => Seq::<IpAddr>::empty() };
            if va.len() + vb.len() == 0 {
                r matches Err(e) && e.kind_spec() == ErrorKind::NotFound
            } else {
                r matches Ok(v) && v@ == va + vb
            }
        }),
{
    let mut out: Vec<IpAddr> = Vec::new();
    match a {
        Ok(mut v) => {
            out.append(&mut v);
        },
        Err(_) => {},
    }
    match aaaa {
        Ok(mut v) => {
            out.append(&mut v);
        },
        Err(_) => {},
    }
    if out.len() == 0 {
        Err(Error::new(ErrorKind::NotFound, "name resolution failed"))
    } else {
        Ok(out)
    }
}

} // verus!
