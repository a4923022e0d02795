//! IP addresses as plain values, and a verified parser for their
//! textual forms.
//!
//! The grammar is the strict one of common address parsers: an IPv4
//! literal is four dot-separated decimal octets, each at most 255, with
//! no leading zeros; an IPv6 literal is colon-separated groups of at
//! most four hex digits, with at most one `::` abbreviation and an
//! optional embedded IPv4 literal in the final position.

use vstd::prelude::*;

use crate::text::{
    chars_of, copy_range, find_dcolon, spec_find_dcolon, spec_split, split_chars,
};

verus! {

/// A 32-bit IPv4 address, one octet per field.
#[derive(Clone, Copy, PartialEq, Eq, Structural, Debug)]
pub struct Ipv4Address {
    pub a: u8,
    pub b: u8,
    pub c: u8,
    pub d: u8,
}

/// A 128-bit IPv6 address, one 16-bit group per field.
#[derive(Clone, Copy, PartialEq, Eq, Structural, Debug)]
pub struct Ipv6Address {
    pub s0: u16,
    pub s1: u16,
    pub s2: u16,
    pub s3: u16,
    pub s4: u16,
    pub s5: u16,
    pub s6: u16,
    pub s7: u16,
}

/// A tagged address of either family.
#[derive(Clone, Copy, PartialEq, Eq, Structural, Debug)]
pub enum IpAddress {
    V4(Ipv4Address),
    V6(Ipv6Address),
}

pub open spec fn is_digit(c: char) -> bool {
    '0' as int <= c as int && c as int <= '9' as int
}

pub open spec fn digit_val(c: char) -> int {
    c as int - '0' as int
}

pub open spec fn is_hex_digit(c: char) -> bool {
    ||| is_digit(c)
    ||| 'a' as int <= c as int && c as int <= 'f' as int
    ||| 'A' as int <= c as int && c as int <= 'F' as int
}

pub open spec fn hex_digit_val(c: char) -> int {
    if is_digit(c) {
        digit_val(c)
    } else if 'a' as int <= c as int && c as int <= 'f' as int {
        c as int - 'a' as int + 10
    } else {
        c as int - 'A' as int + 10
    }
}

pub open spec fn spec_all_digits(s: Seq<char>) -> bool {
    forall|i: int| 0 <= i < s.len() ==> is_digit(s[i])
}

pub open spec fn spec_all_hex_digits(s: Seq<char>) -> bool {
    forall|i: int| 0 <= i < s.len() ==> is_hex_digit(s[i])
}

/// Value of a decimal digit string, most significant digit first.
pub open spec fn spec_dec_val(s: Seq<char>) -> int
    decreases s.len(),
{
    if s.len() == 0 {
        0
    } else {
        spec_dec_val(s.drop_last()) * 10 + digit_val(s.last())
    }
}

/// Value of a hexadecimal digit string, most significant digit first.
pub open spec fn spec_hex_val(s: Seq<char>) -> int
    decreases s.len(),
{
    if s.len() == 0 {
        0
    } else {
        spec_hex_val(s.drop_last()) * 16 + hex_digit_val(s.last())
    }
}

/// A decimal octet: one to three digits, no leading zero, at most 255.
pub open spec fn spec_parse_octet(s: Seq<char>) -> Option<u8> {
    if s.len() < 1 || s.len() > 3 {
        None
    } else if !spec_all_digits(s) {
        None
    } else if s.len() > 1 && s[0] == '0' {
        None
    } else if spec_dec_val(s) > 255 {
        None
    } else {
        Some(spec_dec_val(s) as u8)
    }
}

/// A hex group: one to four hex digits, leading zeros allowed.
pub open spec fn spec_parse_hex_group(s: Seq<char>) -> Option<u16> {
    if s.len() < 1 || s.len() > 4 {
        None
    } else if !spec_all_hex_digits(s) {
        None
    } else {
        Some(spec_hex_val(s) as u16)
    }
}

/// An IPv4 literal: four octets separated by single dots.
pub open spec fn spec_parse_ipv4(s: Seq<char>) -> Option<Ipv4Address> {
    let p = spec_split(s, '.');
    if p.len() == 4 {
        match (
            spec_parse_octet(p[0]),
            spec_parse_octet(p[1]),
            spec_parse_octet(p[2]),
            spec_parse_octet(p[3]),
        ) {
            (Some(a), Some(b), Some(c), Some(d)) => Some(Ipv4Address { a, b, c, d }),
            _ => None,
        }
    } else {
        None
    }
}

/// Every part is a hex group.
pub open spec fn spec_hex_groups_ok(parts: Seq<Seq<char>>) -> bool {
    forall|i: int| 0 <= i < parts.len() ==> spec_parse_hex_group(parts[i]) is Some
}

/// The group values of a run of hex groups.
pub open spec fn spec_group_vals(parts: Seq<Seq<char>>) -> Seq<u16> {
    Seq::new(parts.len(), |i: int| spec_parse_hex_group(parts[i]).unwrap())
}

/// The two 16-bit groups contributed by an embedded IPv4 address.
pub open spec fn spec_v4_groups(a: Ipv4Address) -> Seq<u16> {
    seq![
        (a.a as int * 256 + a.b as int) as u16,
        (a.c as int * 256 + a.d as int) as u16,
    ]
}

/// The zero groups that a `::` abbreviation stands for.
pub open spec fn spec_zero_groups(n: int) -> Seq<u16> {
    Seq::new(n as nat, |i: int| 0u16)
}

/// A run of colon-separated parts whose final part may be an embedded
/// IPv4 literal: the shape allowed at the end of an IPv6 literal.
pub open spec fn spec_tail_ok(parts: Seq<Seq<char>>) -> bool {
    parts.len() == 0 || {
        &&& spec_hex_groups_ok(parts.drop_last())
        &&& (spec_parse_hex_group(parts.last()) is Some || spec_parse_ipv4(parts.last()) is Some)
    }
}

/// The group values of such a run; an embedded IPv4 literal counts as
/// two groups.
pub open spec fn spec_tail_vals(parts: Seq<Seq<char>>) -> Seq<u16> {
    if parts.len() == 0 {
        Seq::empty()
    } else if spec_parse_hex_group(parts.last()) is Some {
        spec_group_vals(parts)
    } else {
        spec_group_vals(parts.drop_last()) + spec_v4_groups(
            spec_parse_ipv4(parts.last()).unwrap(),
        )
    }
}

/// The eight 16-bit groups encoded by an IPv6 literal, if it is valid.
///
/// Without `::` the colon-separated parts must yield exactly eight
/// groups.  With one `::`, the parts before it must all be hex groups,
/// the parts after it follow `spec_tail_ok`, and together they must
/// yield at most seven groups; `::` stands for the missing zeros.
pub open spec fn spec_parse_ipv6_groups(s: Seq<char>) -> Option<Seq<u16>> {
    match spec_find_dcolon(s) {
        None => {
            let p = spec_split(s, ':');
            if spec_tail_ok(p) && spec_tail_vals(p).len() == 8 {
                Some(spec_tail_vals(p))
            } else {
                None
            }
        },
        Some(i) => {
            let lp = if i == 0 {
                Seq::<Seq<char>>::empty()
            } else {
                spec_split(s.take(i), ':')
            };
            let rp = if i + 2 == s.len() {
                Seq::<Seq<char>>::empty()
            } else {
                spec_split(s.skip(i + 2), ':')
            };
            if spec_hex_groups_ok(lp) && spec_tail_ok(rp) && lp.len() + spec_tail_vals(rp).len()
                <= 7 {
                Some(
                    spec_group_vals(lp) + spec_zero_groups(
                        8 - lp.len() - spec_tail_vals(rp).len(),
                    ) + spec_tail_vals(rp),
                )
            } else {
                None
            }
        },
    }
}

/// An IPv6 literal, assembled from its eight groups.
pub open spec fn spec_parse_ipv6(s: Seq<char>) -> Option<Ipv6Address> {
    match spec_parse_ipv6_groups(s) {
        Some(g) => Some(
            Ipv6Address {
                s0: g[0],
                s1: g[1],
                s2: g[2],
                s3: g[3],
                s4: g[4],
                s5: g[5],
                s6: g[6],
                s7: g[7],
            },
        ),
        None => None,
    }
}

/// An IP literal of either family; the IPv4 form is tried first.
pub open spec fn spec_parse_ip(s: Seq<char>) -> Option<IpAddress> {
    if spec_parse_ipv4(s) is Some {
        Some(IpAddress::V4(spec_parse_ipv4(s).unwrap()))
    } else if spec_parse_ipv6(s) is Some {
        Some(IpAddress::V6(spec_parse_ipv6(s).unwrap()))
    } else {
        None
    }
}

/// Parses a decimal octet, per `spec_parse_octet`.
pub fn parse_octet(part: &Vec<char>) -> (r: Option<u8>)
    ensures
        r == spec_parse_octet(part@),
{
    let n: usize = part.len();
    if n < 1 || n > 3 {
        return None;
    }
    let mut val: u32 = 0;
    let mut i: usize = 0;
    while i < n
        invariant
            1 <= n <= 3,
            n == part@.len(),
            i <= n,
            spec_all_digits(part@.take(i as int)),
            val == spec_dec_val(part@.take(i as int)),
            i == 0 ==> val == 0,
            i == 1 ==> val <= 9,
            i == 2 ==> val <= 99,
            i == 3 ==> val <= 999,
        decreases n - i,
    {
        let c = part[i];
        if c < '0' || c > '9' {
            proof {
                assert(!is_digit(part@[i as int]));
                assert(!spec_all_digits(part@));
            }
            return None;
        }
        let u = c as u32;
        proof {
            assert(u == c as int);
            let t = part@.take(i as int + 1);
            assert(t.drop_last() =~= part@.take(i as int));
            assert(t.last() == part@[i as int]);
            assert(is_digit(part@[i as int]));
            assert(digit_val(part@[i as int]) == u - 48);
        }
        val = val * 10 + (u - 48);
        i = i + 1;
    }
    proof {
        assert(part@.take(n as int) =~= part@);
    }
    if n > 1 && part[0] == '0' {
        return None;
    }
    if val > 255 {
        return None;
    }
    Some(val as u8)
}

/// Parses a hex group, per `spec_parse_hex_group`.
pub fn parse_hex_group(part: &Vec<char>) -> (r: Option<u16>)
    ensures
        r == spec_parse_hex_group(part@),
{
    let n: usize = part.len();
    if n < 1 || n > 4 {
        return None;
    }
    let mut val: u32 = 0;
    let mut i: usize = 0;
    while i < n
        invariant
            1 <= n <= 4,
            n == part@.len(),
            i <= n,
            spec_all_hex_digits(part@.take(i as int)),
            val == spec_hex_val(part@.take(i as int)),
            i == 0 ==> val == 0,
            i == 1 ==> val <= 0xf,
            i == 2 ==> val <= 0xff,
            i == 3 ==> val <= 0xfff,
            i == 4 ==> val <= 0xffff,
        decreases n - i,
    {
        let c = part[i];
        let d: u32 = if c >= '0' && c <= '9' {
            (c as u32) - 48
        } else if c >= 'a' && c <= 'f' {
            (c as u32) - 87
        } else if c >= 'A' && c <= 'F' {
            (c as u32) - 55
        } else {
            proof {
                assert(!is_hex_digit(part@[i as int]));
                assert(!spec_all_hex_digits(part@));
            }
            return None;
        };
        proof {
            assert(c as u32 == c as int);
            let t = part@.take(i as int + 1);
            assert(t.drop_last() =~= part@.take(i as int));
            assert(t.last() == part@[i as int]);
            assert(is_hex_digit(part@[i as int]));
            assert(hex_digit_val(part@[i as int]) == d);
        }
        val = val * 16 + d;
        i = i + 1;
    }
    proof {
        assert(part@.take(n as int) =~= part@);
    }
    Some(val as u16)
}

/// Parses an IPv4 literal, per `spec_parse_ipv4`.
pub fn parse_ipv4(v: &Vec<char>) -> (r: Option<Ipv4Address>)
    ensures
        r == spec_parse_ipv4(v@),
{
    let parts = split_chars(v, '.');
    if parts.len() != 4 {
        return None;
    }
    let a = match parse_octet(&parts[0]) {
        Some(x) => x,
        None => {
            return None;
        },
    };
    let b = match parse_octet(&parts[1]) {
        Some(x) => x,
        None => {
            return None;
        },
    };
    let c = match parse_octet(&parts[2]) {
        Some(x) => x,
        None => {
            return None;
        },
    };
    let d = match parse_octet(&parts[3]) {
        Some(x) => x,
        None => {
            return None;
        },
    };
    Some(Ipv4Address { a, b, c, d })
}

/// The character sequences held by a vector of parts.
pub open spec fn views_of(parts: Seq<Vec<char>>) -> Seq<Seq<char>> {
    Seq::new(parts.len(), |i: int| parts[i]@)
}

/// Parses a run of parts whose final part may be an embedded IPv4
/// literal, per `spec_tail_ok` and `spec_tail_vals`.
fn parse_tail_groups(parts: &Vec<Vec<char>>) -> (r: Option<Vec<u16>>)
    ensures
        match r {
            Some(gs) => spec_tail_ok(views_of(parts@)) && gs@ == spec_tail_vals(
                views_of(parts@),
            ),
            None => !spec_tail_ok(views_of(parts@)),
        },
{
    let ghost vs = views_of(parts@);
    let m: usize = parts.len();
    if m == 0 {
        let gs: Vec<u16> = Vec::new();
        assert(gs@ =~= spec_tail_vals(vs));
        return Some(gs);
    }
    let mut gs: Vec<u16> = Vec::new();
    let mut j: usize = 0;
    while j < m - 1
        invariant
            1 <= m == parts@.len(),
            j <= m - 1,
            vs == views_of(parts@),
            gs@.len() == j,
            forall|k: int| 0 <= k < j ==> Some(gs@[k]) == spec_parse_hex_group(vs[k]),
        decreases m - j,
    {
        match parse_hex_group(&parts[j]) {
            Some(g) => {
                gs.push(g);
            },
            None => {
                proof {
                    assert(vs.drop_last()[j as int] == vs[j as int]);
                    assert(!spec_hex_groups_ok(vs.drop_last()));
                }
                return None;
            },
        }
        j = j + 1;
    }
    match parse_hex_group(&parts[m - 1]) {
        Some(g) => {
            gs.push(g);
            proof {
                assert(vs.last() == vs[m - 1]);
                assert(gs@ =~= spec_group_vals(vs));
            }
            Some(gs)
        },
        None => {
            match parse_ipv4(&parts[m - 1]) {
                Some(a) => {
                    let hi: u16 = (a.a as u16) * 256 + (a.b as u16);
                    let lo: u16 = (a.c as u16) * 256 + (a.d as u16);
                    gs.push(hi);
                    gs.push(lo);
                    proof {
                        assert(vs.last() == vs[m - 1]);
                        assert(forall|k: int|
                            0 <= k < m - 1 ==> vs.drop_last()[k] == vs[k]);
                        assert(gs@ =~= spec_group_vals(vs.drop_last()) + spec_v4_groups(a));
                    }
                    Some(gs)
                },
                None => {
                    proof {
                        assert(vs.last() == vs[m - 1]);
                    }
                    None
                },
            }
        },
    }
}

/// Builds the address struct from its eight groups.
fn build_v6(gs: &Vec<u16>) -> (r: Ipv6Address)
    requires
        gs@.len() == 8,
    ensures
        r.s0 == gs@[0],
        r.s1 == gs@[1],
        r.s2 == gs@[2],
        r.s3 == gs@[3],
        r.s4 == gs@[4],
        r.s5 == gs@[5],
        r.s6 == gs@[6],
        r.s7 == gs@[7],
{
    Ipv6Address {
        s0: gs[0],
        s1: gs[1],
        s2: gs[2],
        s3: gs[3],
        s4: gs[4],
        s5: gs[5],
        s6: gs[6],
        s7: gs[7],
    }
}

/// Parses an IPv6 literal, per `spec_parse_ipv6`.
#[verifier::loop_isolation(false)]
pub fn parse_ipv6(v: &Vec<char>) -> (r: Option<Ipv6Address>)
    ensures
        r == spec_parse_ipv6(v@),
{
    let n: usize = v.len();
    match find_dcolon(v) {
        None => {
            let parts = split_chars(v, ':');
            proof {
                assert(views_of(parts@) =~~= spec_split(v@, ':'));
            }
            let gs = match parse_tail_groups(&parts) {
                Some(gs) => gs,
                None => {
                    return None;
                },
            };
            if gs.len() != 8 {
                return None;
            }
            Some(build_v6(&gs))
        },
        Some(i) => {
            let l = copy_range(v, 0, i);
            let r = copy_range(v, i + 2, n);
            let ghost lp = if i == 0 {
                Seq::<Seq<char>>::empty()
            } else {
                spec_split(v@.take(i as int), ':')
            };
            let ghost rp = if i + 2 == v@.len() {
                Seq::<Seq<char>>::empty()
            } else {
                spec_split(v@.skip(i as int + 2), ':')
            };
            let mut lvals: Vec<u16> = Vec::new();
            if l.len() > 0 {
                let lparts = split_chars(&l, ':');
                proof {
                    assert(l@ =~= v@.take(i as int));
                    assert(views_of(lparts@) =~~= lp);
                }
                let ln: usize = lparts.len();
                let mut j: usize = 0;
                while j < ln
                    invariant
                        j <= ln == lparts@.len(),
                        lp == views_of(lparts@),
                        lvals@.len() == j,
                        forall|k: int|
                            0 <= k < j ==> Some(lvals@[k]) == spec_parse_hex_group(lp[k]),
                    decreases ln - j,
                {
                    match parse_hex_group(&lparts[j]) {
                        Some(g) => {
                            lvals.push(g);
                        },
                        None => {
                            proof {
                                assert(lp[j as int] == lparts@[j as int]@);
                                assert(spec_parse_hex_group(lp[j as int]) is None);
                                assert(!spec_hex_groups_ok(lp));
                            }
                            return None;
                        },
                    }
                    j = j + 1;
                }
                proof {
                    assert(lvals@ =~= spec_group_vals(lp));
                }
            } else {
                proof {
                    assert(lvals@ =~= spec_group_vals(lp));
                }
            }
            let tvals: Vec<u16> = if r.len() > 0 {
                let rparts = split_chars(&r, ':');
                proof {
                    assert(r@ =~= v@.skip(i as int + 2));
                    assert(views_of(rparts@) =~~= rp);
                }
                match parse_tail_groups(&rparts) {
                    Some(t) => t,
                    None => {
                        return None;
                    },
                }
            } else {
                let t: Vec<u16> = Vec::new();
                proof {
                    assert(t@ =~= spec_tail_vals(rp));
                }
                t
            };
            if lvals.len() >= 8 || tvals.len() >= 8 || lvals.len() + tvals.len() > 7 {
                return None;
            }
            let zeros: usize = 8 - lvals.len() - tvals.len();
            let ghost hlen = lvals@.len() as int;
            let mut gs = lvals;
            let mut z: usize = 0;
            while z < zeros
        invariant
                    z <= zeros,
                    gs@.len() == hlen + z,
                    gs@ == spec_group_vals(lp) + spec_zero_groups(z as int),
                    hlen == spec_group_vals(lp).len(),
                decreases zeros - z,
            {
                gs.push(0);
                proof {
                    assert(gs@ =~= spec_group_vals(lp) + spec_zero_groups(z as int + 1));
                }
                z = z + 1;
            }
            let tn: usize = tvals.len();
            let mut k: usize = 0;
            while k < tn
                invariant
                    k <= tn == tvals@.len(),
                    gs@ == spec_group_vals(lp) + spec_zero_groups(zeros as int) + tvals@.take(
                        k as int,
                    ),
                decreases tn - k,
            {
                gs.push(tvals[k]);
                proof {
                    assert(tvals@.take(k as int).push(tvals@[k as int]) =~= tvals@.take(
                        k as int + 1,
                    ));
                    assert(gs@ =~= spec_group_vals(lp) + spec_zero_groups(zeros as int)
                        + tvals@.take(k as int + 1));
                }
                k = k + 1;
            }
            proof {
                assert(tvals@.take(tn as int) =~= tvals@);
            }
            Some(build_v6(&gs))
        },
    }
}

/// The character of a decimal digit value.
pub open spec fn spec_digit_char(d: int) -> char {
    if d == 0 {
        '0'
    } else if d == 1 {
        '1'
    } else if d == 2 {
        '2'
    } else if d == 3 {
        '3'
    } else if d == 4 {
        '4'
    } else if d == 5 {
        '5'
    } else if d == 6 {
        '6'
    } else if d == 7 {
        '7'
    } else if d == 8 {
        '8'
    } else {
        '9'
    }
}

/// The character of a hex digit value, lower case.
pub open spec fn spec_hex_char(d: int) -> char {
    if d < 10 {
        spec_digit_char(d)
    } else if d == 10 {
        'a'
    } else if d == 11 {
        'b'
    } else if d == 12 {
        'c'
    } else if d == 13 {
        'd'
    } else if d == 14 {
        'e'
    } else {
        'f'
    }
}

/// The canonical text of a decimal octet: no leading zeros.
pub open spec fn spec_format_octet(n: int) -> Seq<char> {
    if n < 10 {
        seq![spec_digit_char(n)]
    } else if n < 100 {
        seq![spec_digit_char(n / 10), spec_digit_char(n % 10)]
    } else {
        seq![spec_digit_char(n / 100), spec_digit_char((n / 10) % 10), spec_digit_char(n % 10)]
    }
}

/// The canonical text of an IPv4 address.
pub open spec fn spec_format_ipv4(a: Ipv4Address) -> Seq<char> {
    spec_format_octet(a.a as int) + seq!['.'] + spec_format_octet(a.b as int) + seq!['.']
        + spec_format_octet(a.c as int) + seq!['.'] + spec_format_octet(a.d as int)
}

/// The canonical text of a hex group: minimal lower-case hex digits.
pub open spec fn spec_format_hex_group(v: int) -> Seq<char>
    decreases v,
{
    if v < 16 {
        seq![spec_hex_char(v)]
    } else {
        spec_format_hex_group(v / 16).push(spec_hex_char(v % 16))
    }
}

/// Nonempty blocks joined by single colons.
pub open spec fn spec_join_colon(blocks: Seq<Seq<char>>) -> Seq<char>
    decreases blocks.len(),
{
    if blocks.len() == 0 {
        Seq::empty()
    } else if blocks.len() == 1 {
        blocks[0]
    } else {
        blocks[0] + seq![':'] + spec_join_colon(blocks.skip(1))
    }
}

/// The eight blocks of the canonical text of an IPv6 address: minimal
/// lower-case hex digits for each group.
pub open spec fn spec_v6_blocks(b: Ipv6Address) -> Seq<Seq<char>> {
    seq![
        spec_format_hex_group(b.s0 as int),
        spec_format_hex_group(b.s1 as int),
        spec_format_hex_group(b.s2 as int),
        spec_format_hex_group(b.s3 as int),
        spec_format_hex_group(b.s4 as int),
        spec_format_hex_group(b.s5 as int),
        spec_format_hex_group(b.s6 as int),
        spec_format_hex_group(b.s7 as int),
    ]
}

/// The full uncompressed canonical text of an IPv6 address: eight
/// groups of minimal lower-case hex digits joined by single colons.
pub open spec fn spec_format_ipv6(b: Ipv6Address) -> Seq<char> {
    spec_join_colon(spec_v6_blocks(b))
}

proof fn lemma_digit_char(d: int)
    requires
        0 <= d <= 9,
    ensures
        is_digit(spec_digit_char(d)),
        digit_val(spec_digit_char(d)) == d,
        spec_digit_char(d) != '.',
        spec_digit_char(d) != ':',
        d != 0 ==> spec_digit_char(d) != '0',
{
}

proof fn lemma_hex_char(d: int)
    requires
        0 <= d <= 15,
    ensures
        is_hex_digit(spec_hex_char(d)),
        hex_digit_val(spec_hex_char(d)) == d,
        spec_hex_char(d) != ':',
{
}

/// Formatting an octet and parsing it back yields the octet.
proof fn lemma_parse_format_octet(n: int)
    requires
        0 <= n <= 255,
    ensures
        spec_all_digits(spec_format_octet(n)),
        1 <= spec_format_octet(n).len() <= 3,
        spec_parse_octet(spec_format_octet(n)) == Some(n as u8),
{
    reveal_with_fuel(spec_dec_val, 4);
    let s = spec_format_octet(n);
    if n < 10 {
        lemma_digit_char(n);
        assert(s.drop_last() =~= Seq::<char>::empty());
        assert(spec_dec_val(s) == n);
    } else if n < 100 {
        lemma_digit_char(n / 10);
        lemma_digit_char(n % 10);
        let h = seq![spec_digit_char(n / 10)];
        assert(s.drop_last() =~= h);
        assert(h.drop_last() =~= Seq::<char>::empty());
        assert(spec_dec_val(h) == n / 10);
        assert(spec_dec_val(s) == (n / 10) * 10 + n % 10);
        assert((n / 10) * 10 + n % 10 == n) by (nonlinear_arith)
            requires 0 <= n;
        assert(s[0] == spec_digit_char(n / 10));
        assert(n / 10 != 0);
    } else {
        lemma_digit_char(n / 100);
        lemma_digit_char((n / 10) % 10);
        lemma_digit_char(n % 10);
        let h2 = seq![spec_digit_char(n / 100), spec_digit_char((n / 10) % 10)];
        let h1 = seq![spec_digit_char(n / 100)];
        assert(s.drop_last() =~= h2);
        assert(h2.drop_last() =~= h1);
        assert(h1.drop_last() =~= Seq::<char>::empty());
        assert(spec_dec_val(h1) == n / 100);
        assert(spec_dec_val(h2) == (n / 100) * 10 + (n / 10) % 10);
        assert(spec_dec_val(s) == spec_dec_val(h2) * 10 + n % 10);
        assert(((n / 100) * 10 + (n / 10) % 10) * 10 + n % 10 == n) by (nonlinear_arith)
            requires 100 <= n <= 255;
        assert(s[0] == spec_digit_char(n / 100));
        assert(n / 100 != 0);
    }
}

/// No character of a formatted octet is a separator.
proof fn lemma_format_octet_no_sep(n: int)
    requires
        0 <= n <= 255,
    ensures
        crate::text::spec_no_sep(spec_format_octet(n), '.'),
        crate::text::spec_no_sep(spec_format_octet(n), ':'),
{
    lemma_parse_format_octet(n);
    let s = spec_format_octet(n);
    assert forall|i: int| 0 <= i < s.len() implies s[i] != '.' && s[i] != ':' by {
        assert(is_digit(s[i]));
    }
}

/// Parse round trip, IPv4: parsing the canonical text of any IPv4
/// address yields that address, tagged `V4`.
pub proof fn lemma_parse_format_ipv4(a: Ipv4Address)
    ensures
        spec_parse_ipv4(spec_format_ipv4(a)) == Some(a),
        spec_parse_ip(spec_format_ipv4(a)) == Some(IpAddress::V4(a)),
{
    let s = spec_format_ipv4(a);
    let f1 = spec_format_octet(a.a as int);
    let f2 = spec_format_octet(a.b as int);
    let f3 = spec_format_octet(a.c as int);
    let f4 = spec_format_octet(a.d as int);
    lemma_parse_format_octet(a.a as int);
    lemma_parse_format_octet(a.b as int);
    lemma_parse_format_octet(a.c as int);
    lemma_parse_format_octet(a.d as int);
    lemma_format_octet_no_sep(a.a as int);
    lemma_format_octet_no_sep(a.b as int);
    lemma_format_octet_no_sep(a.c as int);
    lemma_format_octet_no_sep(a.d as int);
    let r2 = f2 + seq!['.'] + f3 + seq!['.'] + f4;
    let r3 = f3 + seq!['.'] + f4;
    assert(s =~= f1 + seq!['.'] + r2);
    crate::text::lemma_split_concat(f1, r2, '.');
    assert(r2 =~= f2 + seq!['.'] + r3);
    crate::text::lemma_split_concat(f2, r3, '.');
    assert(r3 =~= f3 + seq!['.'] + f4);
    crate::text::lemma_split_concat(f3, f4, '.');
    crate::text::lemma_split_whole(f4, '.');
    let p = spec_split(s, '.');
    assert(p =~~= seq![f1, f2, f3, f4]);
    assert(spec_parse_octet(p[0]) == Some(a.a));
    assert(spec_parse_octet(p[1]) == Some(a.b));
    assert(spec_parse_octet(p[2]) == Some(a.c));
    assert(spec_parse_octet(p[3]) == Some(a.d));
}

/// Formatting a hex group and parsing it back yields the group.
proof fn lemma_parse_format_hex_group(v: int)
    requires
        0 <= v <= 0xffff,
    ensures
        spec_all_hex_digits(spec_format_hex_group(v)),
        1 <= spec_format_hex_group(v).len() <= 4,
        v >= 16 ==> spec_format_hex_group(v).len() >= 2,
        spec_hex_val(spec_format_hex_group(v)) == v,
        spec_parse_hex_group(spec_format_hex_group(v)) == Some(v as u16),
        crate::text::spec_no_sep(spec_format_hex_group(v), ':'),
    decreases v,
{
    reveal_with_fuel(spec_hex_val, 3);
    let s = spec_format_hex_group(v);
    if v < 16 {
        lemma_hex_char(v);
        assert(s.drop_last() =~= Seq::<char>::empty());
        assert(spec_hex_val(s) == v);
    } else {
        lemma_parse_format_hex_group(v / 16);
        lemma_hex_char(v % 16);
        let h = spec_format_hex_group(v / 16);
        assert(s == h.push(spec_hex_char(v % 16)));
        assert(s.drop_last() =~= h);
        assert(s.last() == spec_hex_char(v % 16));
        assert(spec_hex_val(s) == spec_hex_val(h) * 16 + v % 16);
        assert(spec_hex_val(h) == v / 16);
        assert((v / 16) * 16 + v % 16 == v) by (nonlinear_arith)
            requires 0 <= v;
        assert(v / 16 <= 0xfff);
        assert(v / 16 >= 1);
        assert(h.len() <= 3) by {
            if v / 16 >= 0x1000 {
                assert(v >= 0x10000) by (nonlinear_arith)
                    requires v / 16 >= 0x1000, 0 <= v;
            }
            if h.len() > 3 {
                lemma_hex_len_val(v / 16);
            }
        }
        assert forall|i: int| 0 <= i < s.len() implies is_hex_digit(s[i]) by {
            if i < s.len() - 1 {
                assert(s[i] == h[i]);
            }
        }
        assert forall|i: int| 0 <= i < s.len() implies s[i] != ':' by {
            assert(is_hex_digit(s[i]));
        }
    }
}

/// A hex text of more than `k` digits has a value of at least `16^k`.
proof fn lemma_hex_len_val(v: int)
    requires
        0 <= v,
    ensures
        spec_format_hex_group(v).len() >= 4 ==> v >= 0x1000,
        spec_format_hex_group(v).len() >= 3 ==> v >= 0x100,
        spec_format_hex_group(v).len() >= 2 ==> v >= 16,
    decreases v,
{
    if v >= 16 {
        lemma_hex_len_val(v / 16);
        assert(spec_format_hex_group(v).len() == spec_format_hex_group(v / 16).len() + 1);
        if spec_format_hex_group(v).len() >= 4 {
            assert(v / 16 >= 0x100);
            assert(v >= 0x1000) by (nonlinear_arith)
                requires v / 16 >= 0x100, 0 <= v;
        }
        if spec_format_hex_group(v).len() >= 3 {
            assert(v / 16 >= 16);
            assert(v >= 0x100) by (nonlinear_arith)
                requires v / 16 >= 16, 0 <= v;
        }
    }
}

/// A colon-free sequence has no double colon.
proof fn lemma_find_dcolon_none_nosep(s: Seq<char>)
    requires
        crate::text::spec_no_sep(s, ':'),
    ensures
        spec_find_dcolon(s) is None,
    decreases s.len(),
{
    if s.len() >= 2 {
        lemma_find_dcolon_none_nosep(s.skip(1));
        assert(crate::text::spec_no_sep(s.skip(1), ':')) by {
            assert(forall|i: int| 0 <= i < s.skip(1).len() ==> s.skip(1)[i] == s[i + 1]);
        }
    }
}

/// Joining a colon-free block, a single colon, and a double-colon-free
/// remainder that does not begin with a colon yields no double colon.
proof fn lemma_find_dcolon_none_concat(a: Seq<char>, r: Seq<char>)
    requires
        a.len() >= 1,
        crate::text::spec_no_sep(a, ':'),
        spec_find_dcolon(r) is None,
        r.len() >= 1,
        r[0] != ':',
    ensures
        spec_find_dcolon(a + seq![':'] + r) is None,
    decreases a.len(),
{
    let s = a + seq![':'] + r;
    assert(s[0] == a[0]);
    if a.len() == 1 {
        assert(s.skip(1) =~= seq![':'] + r);
        assert((seq![':'] + r).skip(1) =~= r);
        assert((seq![':'] + r)[1] == r[0]);
    } else {
        lemma_find_dcolon_none_concat(a.skip(1), r);
        assert(s.skip(1) =~= a.skip(1) + seq![':'] + r);
        assert(s[1] == a[1]);
    }
}

/// If every part of a split is all digits, every character of the
/// whole is a digit or the separator.
proof fn lemma_split_parts_digits(s: Seq<char>, sep: char)
    requires
        forall|i: int|
            0 <= i < spec_split(s, sep).len() ==> spec_all_digits(
                #[trigger] spec_split(s, sep)[i],
            ),
    ensures
        forall|k: int| 0 <= k < s.len() ==> is_digit(s[k]) || s[k] == sep,
    decreases s.len(),
{
    if s.len() == 0 {
    } else if s[0] == sep {
        let ps = spec_split(s.skip(1), sep);
        assert forall|i: int| 0 <= i < ps.len() implies spec_all_digits(ps[i]) by {
            assert(spec_split(s, sep)[i + 1] == ps[i]);
        }
        lemma_split_parts_digits(s.skip(1), sep);
        assert forall|k: int| 0 <= k < s.len() implies is_digit(s[k]) || s[k] == sep by {
            if k > 0 {
                assert(s.skip(1)[k - 1] == s[k]);
            }
        }
    } else {
        let ps = spec_split(s.skip(1), sep);
        crate::text::lemma_split_len(s.skip(1), sep);
        let part0 = seq![s[0]] + ps[0];
        assert(spec_split(s, sep)[0] == part0);
        assert(spec_all_digits(part0));
        assert(is_digit(s[0])) by {
            assert(part0[0] == s[0]);
        }
        assert forall|i: int| 0 <= i < ps.len() implies spec_all_digits(ps[i]) by {
            if i == 0 {
                assert forall|j: int| 0 <= j < ps[0].len() implies is_digit(ps[0][j]) by {
                    assert(part0[j + 1] == ps[0][j]);
                }
            } else {
                assert(spec_split(s, sep)[i] == ps.skip(1)[i - 1]);
            }
        }
        lemma_split_parts_digits(s.skip(1), sep);
        assert forall|k: int| 0 <= k < s.len() implies is_digit(s[k]) || s[k] == sep by {
            if k > 0 {
                assert(s.skip(1)[k - 1] == s[k]);
            }
        }
    }
}

/// A valid IPv4 literal consists of digits and dots alone.
proof fn lemma_ipv4_no_colon(s: Seq<char>)
    requires
        spec_parse_ipv4(s) is Some,
    ensures
        crate::text::spec_no_sep(s, ':'),
{
    let p = spec_split(s, '.');
    assert forall|i: int| 0 <= i < p.len() implies spec_all_digits(p[i]) by {
        assert(spec_parse_octet(p[i]) is Some);
    }
    lemma_split_parts_digits(s, '.');
    assert forall|k: int| 0 <= k < s.len() implies s[k] != ':' by {
        assert(is_digit(s[k]) || s[k] == '.');
    }
}

/// Joining nonempty colon-free blocks by single colons yields no
/// double colon, and splitting on the colon gives the blocks back.
proof fn lemma_join_colon_split(blocks: Seq<Seq<char>>)
    requires
        blocks.len() >= 1,
        forall|i: int|
            0 <= i < blocks.len() ==> (#[trigger] blocks[i]).len() >= 1
                && crate::text::spec_no_sep(blocks[i], ':'),
    ensures
        spec_find_dcolon(spec_join_colon(blocks)) is None,
        spec_split(spec_join_colon(blocks), ':') == blocks,
        spec_join_colon(blocks).len() >= 1,
        spec_join_colon(blocks)[0] == blocks[0][0],
    decreases blocks.len(),
{
    if blocks.len() == 1 {
        lemma_find_dcolon_none_nosep(blocks[0]);
        crate::text::lemma_split_whole(blocks[0], ':');
        assert(seq![blocks[0]] =~~= blocks);
    } else {
        let rest = blocks.skip(1);
        assert(forall|i: int| 0 <= i < rest.len() ==> rest[i] == blocks[i + 1]);
        lemma_join_colon_split(rest);
        let r = spec_join_colon(rest);
        assert(r[0] != ':');
        lemma_find_dcolon_none_concat(blocks[0], r);
        crate::text::lemma_split_concat(blocks[0], r, ':');
        assert(seq![blocks[0]] + rest =~~= blocks);
    }
}

/// Parse round trip, IPv6: parsing the full uncompressed canonical
/// text of any IPv6 address yields that address, tagged `V6`.
#[verifier::rlimit(100)]
pub proof fn lemma_parse_format_ipv6(b: Ipv6Address)
    ensures
        spec_parse_ipv6(spec_format_ipv6(b)) == Some(b),
        spec_parse_ip(spec_format_ipv6(b)) == Some(IpAddress::V6(b)),
{
    let s = spec_format_ipv6(b);
    let f0 = spec_format_hex_group(b.s0 as int);
    let f1 = spec_format_hex_group(b.s1 as int);
    let f2 = spec_format_hex_group(b.s2 as int);
    let f3 = spec_format_hex_group(b.s3 as int);
    let f4 = spec_format_hex_group(b.s4 as int);
    let f5 = spec_format_hex_group(b.s5 as int);
    let f6 = spec_format_hex_group(b.s6 as int);
    let f7 = spec_format_hex_group(b.s7 as int);
    lemma_parse_format_hex_group(b.s0 as int);
    lemma_parse_format_hex_group(b.s1 as int);
    lemma_parse_format_hex_group(b.s2 as int);
    lemma_parse_format_hex_group(b.s3 as int);
    lemma_parse_format_hex_group(b.s4 as int);
    lemma_parse_format_hex_group(b.s5 as int);
    lemma_parse_format_hex_group(b.s6 as int);
    lemma_parse_format_hex_group(b.s7 as int);
    let blocks = spec_v6_blocks(b);
    assert(blocks[0] == f0);
    assert(blocks[1] == f1);
    assert(blocks[2] == f2);
    assert(blocks[3] == f3);
    assert(blocks[4] == f4);
    assert(blocks[5] == f5);
    assert(blocks[6] == f6);
    assert(blocks[7] == f7);
    lemma_join_colon_split(blocks);
    assert(spec_find_dcolon(s) is None);
    let p = spec_split(s, ':');
    assert(p == blocks);
    assert(p.drop_last() =~~= blocks.take(7));
    assert(spec_tail_ok(p));
    assert(spec_parse_hex_group(p.last()) is Some);
    let tv = spec_tail_vals(p);
    assert(tv =~= spec_group_vals(p));
    assert(tv.len() == 8);
    assert(tv[0] == b.s0);
    assert(tv[1] == b.s1);
    assert(tv[2] == b.s2);
    assert(tv[3] == b.s3);
    assert(tv[4] == b.s4);
    assert(tv[5] == b.s5);
    assert(tv[6] == b.s6);
    assert(tv[7] == b.s7);
    assert(spec_parse_ipv6(s) == Some(b));
    // The IPv4 parse rejects the text: it holds a colon.
    assert(s == blocks[0] + seq![':'] + spec_join_colon(blocks.skip(1)));
    assert(s[f0.len() as int] == ':');
    if spec_parse_ipv4(s) is Some {
        lemma_ipv4_no_colon(s);
        assert(false);
    }
}

/// Parses an IP literal of either family, per `spec_parse_ip`.
pub fn parse_ip(s: &str) -> (r: Option<IpAddress>)
    ensures
        r == spec_parse_ip(s@),
{
    let v = chars_of(s);
    match parse_ipv4(&v) {
        Some(a) => Some(IpAddress::V4(a)),
        None => {
            match parse_ipv6(&v) {
                Some(b) => Some(IpAddress::V6(b)),
                None => None,
            }
        },
    }
}

} // verus!
