//! IPv4 and IPv6 addresses as plain values, with their textual socket-address
//! forms: `"a.b.c.d:port"` for IPv4 and `"[ip6]:port"` for IPv6.  Parsing
//! accepts colon-hex IPv6 text with or without `::` zero-compression;
//! formatting emits the full eight-group lower-case form.

use vstd::prelude::*;
use vstd::string::StrSliceExecFns;
use vstd::string::StringExecFns;
use crate::text::{
    dec_str, hex_str, spec_find, spec_parse_hex4, spec_parse_octet, spec_parse_u16, find_char,
    parse_hex4, parse_octet, parse_u16, fmt_dec, fmt_hex, lemma_find_bounds,
};

verus! {

/// An IPv4 address as its four octets.
#[derive(Clone, Copy, PartialEq, Eq, Structural, Debug)]
pub struct Ip4Addr {
    pub o0: u8,
    pub o1: u8,
    pub o2: u8,
    pub o3: u8,
}

/// An IPv6 address as its eight sixteen-bit groups.
#[derive(Clone, Copy, PartialEq, Eq, Structural, Debug)]
pub struct Ip6Addr {
    pub g0: u16,
    pub g1: u16,
    pub g2: u16,
    pub g3: u16,
    pub g4: u16,
    pub g5: u16,
    pub g6: u16,
    pub g7: u16,
}

impl Ip4Addr {
    pub fn new(o0: u8, o1: u8, o2: u8, o3: u8) -> (r: Ip4Addr)
        ensures
            r == (Ip4Addr { o0, o1, o2, o3 }),
    {
        Ip4Addr { o0, o1, o2, o3 }
    }
}

impl Ip6Addr {
    pub fn new(g0: u16, g1: u16, g2: u16, g3: u16, g4: u16, g5: u16, g6: u16, g7: u16) -> (r:
        Ip6Addr)
        ensures
            r == (Ip6Addr { g0, g1, g2, g3, g4, g5, g6, g7 }),
    {
        Ip6Addr { g0, g1, g2, g3, g4, g5, g6, g7 }
    }
}

/// Dotted-quad text of an IPv4 address.
pub open spec fn ip4_text(a: Ip4Addr) -> Seq<char> {
    dec_str(a.o0 as nat) + seq!['.'] + dec_str(a.o1 as nat) + seq!['.'] + dec_str(a.o2 as nat)
        + seq!['.'] + dec_str(a.o3 as nat)
}

/// Full-form colon-hex text of an IPv6 address.
pub open spec fn ip6_text(a: Ip6Addr) -> Seq<char> {
    hex_str(a.g0 as nat) + seq![':'] + hex_str(a.g1 as nat) + seq![':'] + hex_str(a.g2 as nat)
        + seq![':'] + hex_str(a.g3 as nat) + seq![':'] + hex_str(a.g4 as nat) + seq![':']
        + hex_str(a.g5 as nat) + seq![':'] + hex_str(a.g6 as nat) + seq![':'] + hex_str(a.g7 as nat)
}

/// `"ip:port"` text of an IPv4 socket address.
pub open spec fn sock4_text(a: Ip4Addr, port: u16) -> Seq<char> {
    ip4_text(a) + seq![':'] + dec_str(port as nat)
}

/// `"[ip]:port"` text of an IPv6 socket address.
pub open spec fn sock6_text(a: Ip6Addr, port: u16) -> Seq<char> {
    seq!['['] + ip6_text(a) + seq![']'] + seq![':'] + dec_str(port as nat)
}

/// Formats an IPv4 address as a dotted quad.
pub fn fmt_ip4(a: &Ip4Addr) -> (r: String)
    ensures
        r@ == ip4_text(*a),
{
    proof {
        reveal_strlit(".");
    }
    let mut r = fmt_dec(a.o0 as u16);
    r.append(".");
    r.append(fmt_dec(a.o1 as u16).as_str());
    r.append(".");
    r.append(fmt_dec(a.o2 as u16).as_str());
    r.append(".");
    r.append(fmt_dec(a.o3 as u16).as_str());
    proof {
        assert(r@ =~= ip4_text(*a));
    }
    r
}

/// Formats an IPv6 address in the full eight-group colon-hex form.
pub fn fmt_ip6(a: &Ip6Addr) -> (r: String)
    ensures
        r@ == ip6_text(*a),
{
    proof {
        reveal_strlit(":");
    }
    let mut r = fmt_hex(a.g0);
    r.append(":");
    r.append(fmt_hex(a.g1).as_str());
    r.append(":");
    r.append(fmt_hex(a.g2).as_str());
    r.append(":");
    r.append(fmt_hex(a.g3).as_str());
    r.append(":");
    r.append(fmt_hex(a.g4).as_str());
    r.append(":");
    r.append(fmt_hex(a.g5).as_str());
    r.append(":");
    r.append(fmt_hex(a.g6).as_str());
    r.append(":");
    r.append(fmt_hex(a.g7).as_str());
    proof {
        assert(r@ =~= ip6_text(*a));
    }
    r
}

/// Formats an IPv4 socket address as `"ip:port"`.
pub fn fmt_sock4(a: &Ip4Addr, port: u16) -> (r: String)
    ensures
        r@ == sock4_text(*a, port),
{
    proof {
        reveal_strlit(":");
    }
    let mut r = fmt_ip4(a);
    r.append(":");
    r.append(fmt_dec(port).as_str());
    proof {
        assert(r@ =~= sock4_text(*a, port));
    }
    r
}

/// Formats an IPv6 socket address as `"[ip]:port"`.
pub fn fmt_sock6(a: &Ip6Addr, port: u16) -> (r: String)
    ensures
        r@ == sock6_text(*a, port),
{
    proof {
        reveal_strlit("[");
        reveal_strlit("]:");
    }
    let mut r: String = "[".to_owned();
    r.append(fmt_ip6(a).as_str());
    r.append("]:");
    r.append(fmt_dec(port).as_str());
    proof {
        assert(r@ =~= sock6_text(*a, port));
    }
    r
}

/// Parsed value of a dotted-quad IPv4 address: four decimal octets without
/// leading zeros, separated by dots.
pub open spec fn spec_parse_ip4(s: Seq<char>) -> Option<Ip4Addr> {
    let i1 = spec_find(s, '.', 0);
    let i2 = spec_find(s, '.', i1 + 1);
    let i3 = spec_find(s, '.', i2 + 1);
    let i4 = spec_find(s, '.', i3 + 1);
    if i3 < s.len() && i4 == s.len() {
        match (
            spec_parse_octet(s.subrange(0, i1)),
            spec_parse_octet(s.subrange(i1 + 1, i2)),
            spec_parse_octet(s.subrange(i2 + 1, i3)),
            spec_parse_octet(s.subrange(i3 + 1, s.len() as int)),
        ) {
            (Some(a), Some(b), Some(c), Some(d)) => Some(Ip4Addr { o0: a, o1: b, o2: c, o3: d }),
            _ => None,
        }
    } else {
        None
    }
}

/// Parses a dotted-quad IPv4 address.
pub fn parse_ip4(s: &str) -> (r: Option<Ip4Addr>)
    ensures
        r == spec_parse_ip4(s@),
{
    let n = s.unicode_len();
    let i1 = find_char(s, '.', 0);
    if i1 >= n {
        return None;
    }
    let i2 = find_char(s, '.', i1 + 1);
    if i2 >= n {
        return None;
    }
    let i3 = find_char(s, '.', i2 + 1);
    if i3 >= n {
        return None;
    }
    let i4 = find_char(s, '.', i3 + 1);
    if i4 < n {
        return None;
    }
    proof {
        lemma_find_bounds(s@, '.', 0);
        lemma_find_bounds(s@, '.', i1 + 1);
        lemma_find_bounds(s@, '.', i2 + 1);
        lemma_find_bounds(s@, '.', i3 + 1);
    }
    let p0 = parse_octet(s.substring_char(0, i1));
    let p1 = parse_octet(s.substring_char(i1 + 1, i2));
    let p2 = parse_octet(s.substring_char(i2 + 1, i3));
    let p3 = parse_octet(s.substring_char(i3 + 1, n));
    match (p0, p1, p2, p3) {
        (Some(a), Some(b), Some(c), Some(d)) => Some(Ip4Addr { o0: a, o1: b, o2: c, o3: d }),
        _ => None,
    }
}

/// Index of the first `"::"` in `s` at or after `from`, or `s.len()` when
/// there is none.
pub open spec fn spec_find_dcolon(s: Seq<char>, from: int) -> int
    decreases s.len() - from,
{
    if from < 0 || from + 1 >= s.len() {
        s.len() as int
    } else if s[from] == ':' && s[from + 1] == ':' {
        from
    } else {
        spec_find_dcolon(s, from + 1)
    }
}

/// Finds the first `"::"`; the length of `s` signals absence.
fn find_dcolon(s: &str) -> (r: usize)
    ensures
        r == spec_find_dcolon(s@, 0),
        r <= s@.len(),
        r < s@.len() ==> r + 1 < s@.len(),
{
    let n = s.unicode_len();
    if n == 0 {
        return 0;
    }
    let mut i: usize = 0;
    while i < n - 1
        invariant
            i <= n,
            1 <= n,
            n == s@.len(),
            spec_find_dcolon(s@, 0) == spec_find_dcolon(s@, i as int),
        decreases n - i,
    {
        if s.get_char(i) == ':' && s.get_char(i + 1) == ':' {
            return i;
        }
        i = i + 1;
    }
    n
}

/// Parsed value of a colon-separated list of hexadecimal groups; the empty
/// string is the empty list, and every group must be non-empty.
pub open spec fn spec_parse_group_list(s: Seq<char>) -> Option<Seq<u16>>
    decreases s.len(),
    via spec_parse_group_list_dec
{
    if s.len() == 0 {
        Some(Seq::empty())
    } else {
        let j = spec_find(s, ':', 0);
        if j >= s.len() {
            match spec_parse_hex4(s) {
                Some(g) => Some(seq![g]),
                None => None,
            }
        } else {
            match (spec_parse_hex4(s.subrange(0, j)), spec_parse_group_list(
                s.subrange(j + 1, s.len() as int),
            )) {
                (Some(g), Some(rest)) => Some(seq![g] + rest),
                _ => None,
            }
        }
    }
}

#[via_fn]
proof fn spec_parse_group_list_dec(s: Seq<char>) {
    if s.len() > 0 {
        lemma_find_bounds(s, ':', 0);
    }
}

/// Parses a colon-separated list of hexadecimal groups.
fn parse_group_list(s: &str) -> (r: Option<Vec<u16>>)
    ensures
        match r {
            Some(v) => spec_parse_group_list(s@) == Some(v@) && v@.len() <= s@.len(),
            None => spec_parse_group_list(s@) is None,
        },
    decreases s@.len(),
{
    let n = s.unicode_len();
    if n == 0 {
        let v: Vec<u16> = Vec::new();
        proof {
            assert(v@ =~= Seq::<u16>::empty());
        }
        return Some(v);
    }
    let j = find_char(s, ':', 0);
    proof {
        lemma_find_bounds(s@, ':', 0);
    }
    if j >= n {
        match parse_hex4(s) {
            Some(g) => {
                let mut v: Vec<u16> = Vec::new();
                v.push(g);
                proof {
                    assert(v@ =~= seq![g]);
                }
                Some(v)
            },
            None => None,
        }
    } else {
        match parse_hex4(s.substring_char(0, j)) {
            Some(g) => {
                match parse_group_list(s.substring_char(j + 1, n)) {
                    Some(rest) => {
                        let mut v: Vec<u16> = Vec::new();
                        v.push(g);
                        let mut k: usize = 0;
                        while k < rest.len()
                            invariant
                                v@.len() == 1 + k,
                                k <= rest@.len(),
                                v@ =~= seq![g] + rest@.take(k as int),
                            decreases rest@.len() - k,
                        {
                            v.push(rest[k]);
                            k = k + 1;
                        }
                        proof {
                            assert(rest@.take(rest@.len() as int) =~= rest@);
                            assert(v@ =~= seq![g] + rest@);
                        }
                        Some(v)
                    },
                    None => None,
                }
            },
            None => None,
        }
    }
}

/// The all-zero groups that a `::` stands for.
pub open spec fn zeros16(n: nat) -> Seq<u16> {
    Seq::new(n, |i: int| 0u16)
}

/// An address from its eight groups.
pub open spec fn ip6_from_groups(g: Seq<u16>) -> Ip6Addr {
    Ip6Addr { g0: g[0], g1: g[1], g2: g[2], g3: g[3], g4: g[4], g5: g[5], g6: g[6], g7: g[7] }
}

/// Parsed value of colon-hex IPv6 address text: either eight groups in full,
/// or a `::` zero-compression flanked by at most seven groups in all.  The
/// mixed notation with a trailing dotted quad is not part of this grammar.
pub open spec fn spec_parse_ip6(s: Seq<char>) -> Option<Ip6Addr> {
    let d = spec_find_dcolon(s, 0);
    if d >= s.len() {
        match spec_parse_group_list(s) {
            Some(g) => if g.len() == 8 {
                Some(ip6_from_groups(g))
            } else {
                None
            },
            None => None,
        }
    } else {
        match (spec_parse_group_list(s.subrange(0, d)), spec_parse_group_list(
            s.subrange(d + 2, s.len() as int),
        )) {
            (Some(l), Some(r)) => if l.len() + r.len() <= 7 {
                Some(ip6_from_groups(l + zeros16((8 - l.len() - r.len()) as nat) + r))
            } else {
                None
            },
            _ => None,
        }
    }
}

/// Parses colon-hex IPv6 address text, with or without `::` compression.
pub fn parse_ip6(s: &str) -> (r: Option<Ip6Addr>)
    ensures
        r == spec_parse_ip6(s@),
{
    let n = s.unicode_len();
    let d = find_dcolon(s);
    if d >= n {
        match parse_group_list(s) {
            Some(g) => {
                if g.len() == 8 {
                    Some(
                        Ip6Addr {
                            g0: g[0],
                            g1: g[1],
                            g2: g[2],
                            g3: g[3],
                            g4: g[4],
                            g5: g[5],
                            g6: g[6],
                            g7: g[7],
                        },
                    )
                } else {
                    None
                }
            },
            None => None,
        }
    } else {
        match (parse_group_list(s.substring_char(0, d)), parse_group_list(
            s.substring_char(d + 2, n),
        )) {
            (Some(l), Some(r)) => {
                if l.len() + r.len() <= 7 {
                    let z: usize = 8 - l.len() - r.len();
                    let mut v: Vec<u16> = Vec::new();
                    let mut i: usize = 0;
                    while i < l.len()
                        invariant
                            i <= l@.len(),
                            v@ =~= l@.take(i as int),
                        decreases l@.len() - i,
                    {
                        v.push(l[i]);
                        i = i + 1;
                    }
                    proof {
                        assert(l@.take(l@.len() as int) =~= l@);
                        assert(zeros16(0) =~= Seq::<u16>::empty());
                        assert(v@ =~= l@ + zeros16(0));
                    }
                    let mut k: usize = 0;
                    while k < z
                        invariant
                            k <= z,
                            v@ =~= l@ + zeros16(k as nat),
                        decreases z - k,
                    {
                        v.push(0);
                        proof {
                            assert(v@ =~= l@ + zeros16((k + 1) as nat));
                        }
                        k = k + 1;
                    }
                    proof {
                        assert((l@ + zeros16(z as nat)) + r@.take(0) =~= l@ + zeros16(z as nat));
                    }
                    let mut m: usize = 0;
                    while m < r.len()
                        invariant
                            m <= r@.len(),
                            v@ =~= l@ + zeros16(z as nat) + r@.take(m as int),
                        decreases r@.len() - m,
                    {
                        v.push(r[m]);
                        m = m + 1;
                    }
                    proof {
                        assert(r@.take(r@.len() as int) =~= r@);
                        assert(v@ =~= l@ + zeros16(z as nat) + r@);
                        assert(v@.len() == 8);
                    }
                    Some(
                        Ip6Addr {
                            g0: v[0],
                            g1: v[1],
                            g2: v[2],
                            g3: v[3],
                            g4: v[4],
                            g5: v[5],
                            g6: v[6],
                            g7: v[7],
                        },
                    )
                } else {
                    None
                }
            },
            _ => None,
        }
    }
}

/// Parsed value of an IPv4 socket address `"ip:port"`.
pub open spec fn spec_parse_sock4(s: Seq<char>) -> Option<(Ip4Addr, u16)> {
    let j = spec_find(s, ':', 0);
    if j < s.len() {
        match (spec_parse_ip4(s.subrange(0, j)), spec_parse_u16(
            s.subrange(j + 1, s.len() as int),
        )) {
            (Some(a), Some(p)) => Some((a, p)),
            _ => None,
        }
    } else {
        None
    }
}

/// Parses an IPv4 socket address `"ip:port"`.
pub fn parse_sock4(s: &str) -> (r: Option<(Ip4Addr, u16)>)
    ensures
        r == spec_parse_sock4(s@),
{
    let n = s.unicode_len();
    let j = find_char(s, ':', 0);
    if j >= n {
        return None;
    }
    proof {
        lemma_find_bounds(s@, ':', 0);
    }
    match (parse_ip4(s.substring_char(0, j)), parse_u16(s.substring_char(j + 1, n))) {
        (Some(a), Some(p)) => Some((a, p)),
        _ => None,
    }
}

/// Parsed value of an IPv6 socket address `"[ip]:port"`.
pub open spec fn spec_parse_sock6(s: Seq<char>) -> Option<(Ip6Addr, u16)> {
    let j = spec_find(s, ']', 0);
    if s.len() >= 1 && s[0] == '[' && j + 1 < s.len() && s[j + 1] == ':' {
        match (spec_parse_ip6(s.subrange(1, j)), spec_parse_u16(
            s.subrange(j + 2, s.len() as int),
        )) {
            (Some(a), Some(p)) => Some((a, p)),
            _ => None,
        }
    } else {
        None
    }
}

/// Parses an IPv6 socket address `"[ip]:port"`.
pub fn parse_sock6(s: &str) -> (r: Option<(Ip6Addr, u16)>)
    ensures
        r == spec_parse_sock6(s@),
{
    let n = s.unicode_len();
    if n == 0 || s.get_char(0) != '[' {
        return None;
    }
    let j = find_char(s, ']', 0);
    if j >= n {
        return None;
    }
    if j + 1 >= n || s.get_char(j + 1) != ':' {
        return None;
    }
    proof {
        lemma_find_bounds(s@, ']', 0);
        assert(1 <= j) by {
            assert(s@[0] == '[');
        }
    }
    match (parse_ip6(s.substring_char(1, j)), parse_u16(s.substring_char(j + 2, n))) {
        (Some(a), Some(p)) => Some((a, p)),
        _ => None,
    }
}

} // verus!
