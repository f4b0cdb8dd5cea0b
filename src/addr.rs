//! IP addresses as plain integers, and their textual forms.
//!
//! The accepted text is the one `std::net` accepts: four decimal octets
//! without leading zeros for IPv4; for IPv6 eight groups of one to four hex
//! digits, at most one `::` standing for one or more zero groups, and an
//! optional IPv4 address in place of the last two groups of either side.

use vstd::prelude::*;
use crate::text::{split_spec, split_chars, sub_chars};

verus! {

/// An IPv4 address (as its 32-bit number) or an IPv6 address (as its
/// 128-bit number).
#[derive(Clone, Copy, Debug, PartialEq, Eq, Structural, Hash)]
pub enum IpAddress {
    V4(u32),
    V6(u128),
}

impl IpAddress {
    pub fn is_ipv4(&self) -> (r: bool)
        ensures
            r == (*self is V4),
    {
        match self {
            IpAddress::V4(_) => true,
            IpAddress::V6(_) => false,
        }
    }

    pub fn is_ipv6(&self) -> (r: bool)
        ensures
            r == (*self is V6),
    {
        match self {
            IpAddress::V4(_) => false,
            IpAddress::V6(_) => true,
        }
    }
}

pub open spec fn is_dec(c: char) -> bool {
    '0' <= c && c <= '9'
}

pub open spec fn is_hex(c: char) -> bool {
    is_dec(c) || ('a' <= c && c <= 'f') || ('A' <= c && c <= 'F')
}

/// The value of a (hex or decimal) digit.
pub open spec fn digit_val(c: char) -> int {
    if is_dec(c) {
        c as int - '0' as int
    } else if 'a' <= c && c <= 'f' {
        c as int - 'a' as int + 10
    } else {
        c as int - 'A' as int + 10
    }
}

/// The number written by the digits `s` in base `radix`.
pub open spec fn digits_value(s: Seq<char>, radix: int) -> int
    decreases s.len(),
{
    if s.len() == 0 {
        0
    } else {
        digits_value(s.drop_last(), radix) * radix + digit_val(s.last())
    }
}

/// One decimal octet: one to three digits, no leading zero, at most 255.
pub open spec fn dec_octet(s: Seq<char>) -> Option<u8> {
    if 1 <= s.len() <= 3 && (forall|i: int| 0 <= i < s.len() ==> is_dec(#[trigger] s[i])) && !(
    s.len() > 1 && s[0] == '0') && digits_value(s, 10) <= 255 {
        Some(digits_value(s, 10) as u8)
    } else {
        None
    }
}

/// One IPv6 group: one to four hex digits.
pub open spec fn hex_group(s: Seq<char>) -> Option<u16> {
    if 1 <= s.len() <= 4 && (forall|i: int| 0 <= i < s.len() ==> is_hex(#[trigger] s[i])) {
        Some(digits_value(s, 16) as u16)
    } else {
        None
    }
}

pub open spec fn v4_from_octets(a: u8, b: u8, c: u8, d: u8) -> u32 {
    ((a as u32) << 24u32) | ((b as u32) << 16u32) | ((c as u32) << 8u32) | (d as u32)
}

/// The IPv4 address written by `s`, if `s` is one.
pub open spec fn ipv4_spec(s: Seq<char>) -> Option<u32> {
    let p = split_spec(s, '.');
    if p.len() == 4 && dec_octet(p[0]) is Some && dec_octet(p[1]) is Some && dec_octet(p[2]) is Some
        && dec_octet(p[3]) is Some {
        Some(
            v4_from_octets(
                dec_octet(p[0])->0,
                dec_octet(p[1])->0,
                dec_octet(p[2])->0,
                dec_octet(p[3])->0,
            ),
        )
    } else {
        None
    }
}

/// Every piece is a hex group.
pub open spec fn hex_groups(ps: Seq<Seq<char>>) -> Option<Seq<u16>>
    decreases ps.len(),
{
    if ps.len() == 0 {
        Some(Seq::<u16>::empty())
    } else {
        match hex_groups(ps.drop_last()) {
            Some(g) => match hex_group(ps.last()) {
                Some(x) => Some(g.push(x)),
                None => None,
            },
            None => None,
        }
    }
}

/// The two groups that an embedded IPv4 address stands for.
pub open spec fn v4_as_groups(v: u32) -> Seq<u16> {
    seq![(v >> 16u32) as u16, (v & 0xffffu32) as u16]
}

/// Groups separated by `:`, the last of which may be an IPv4 address.
pub open spec fn group_list(ps: Seq<Seq<char>>) -> Option<Seq<u16>> {
    if ps.len() == 0 {
        None
    } else {
        match hex_groups(ps.drop_last()) {
            Some(g) => match hex_group(ps.last()) {
                Some(x) => Some(g.push(x)),
                None => match ipv4_spec(ps.last()) {
                    Some(v) => Some(g + v4_as_groups(v)),
                    None => None,
                },
            },
            None => None,
        }
    }
}

/// One side of a `::`; it may be empty.
pub open spec fn side_groups(s: Seq<char>) -> Option<Seq<u16>> {
    if s.len() == 0 {
        Some(Seq::<u16>::empty())
    } else {
        group_list(split_spec(s, ':'))
    }
}

/// The index of the first `::` at or after `i`, or -1.
pub open spec fn find_double_colon(s: Seq<char>, i: int) -> int
    decreases s.len() - i,
{
    if i < 0 || i + 1 >= s.len() {
        -1
    } else if s[i] == ':' && s[i + 1] == ':' {
        i
    } else {
        find_double_colon(s, i + 1)
    }
}

/// The eight groups of the IPv6 address written by `s`, if `s` is one.
pub open spec fn ipv6_groups(s: Seq<char>) -> Option<Seq<u16>> {
    let k = find_double_colon(s, 0);
    if k < 0 {
        match group_list(split_spec(s, ':')) {
            Some(g) => if g.len() == 8 {
                Some(g)
            } else {
                None
            },
            None => None,
        }
    } else {
        match (side_groups(s.subrange(0, k)), side_groups(s.subrange(k + 2, s.len() as int))) {
            (Some(h), Some(t)) => if h.len() + t.len() <= 7 {
                Some(h + Seq::new((8 - h.len() - t.len()) as nat, |i: int| 0u16) + t)
            } else {
                None
            },
            _ => None,
        }
    }
}

pub open spec fn v6_from_groups(g: Seq<u16>) -> u128 {
    ((g[0] as u128) << 112u128) | ((g[1] as u128) << 96u128) | ((g[2] as u128) << 80u128) | ((
    g[3] as u128) << 64u128) | ((g[4] as u128) << 48u128) | ((g[5] as u128) << 32u128) | ((
    g[6] as u128) << 16u128) | (g[7] as u128)
}

/// The IPv6 address written by `s`, if `s` is one.
pub open spec fn ipv6_spec(s: Seq<char>) -> Option<u128> {
    match ipv6_groups(s) {
        Some(g) => Some(v6_from_groups(g)),
        None => None,
    }
}

/// The address written by `s`: IPv4 text first, then IPv6 text.
pub open spec fn ip_spec(s: Seq<char>) -> Option<IpAddress> {
    match ipv4_spec(s) {
        Some(v) => Some(IpAddress::V4(v)),
        None => match ipv6_spec(s) {
            Some(v) => Some(IpAddress::V6(v)),
            None => None,
        },
    }
}

fn digit_exec(c: char) -> (r: u32)
    requires
        is_hex(c),
    ensures
        r == digit_val(c),
        r < 16,
{
    if '0' <= c && c <= '9' {
        (c as u32) - ('0' as u32)
    } else if 'a' <= c && c <= 'f' {
        (c as u32) - ('a' as u32) + 10
    } else {
        (c as u32) - ('A' as u32) + 10
    }
}

fn parse_dec_octet(p: &Vec<char>) -> (r: Option<u8>)
    ensures
        r == dec_octet(p@),
{
    if p.len() == 0 || p.len() > 3 {
        return None;
    }
    let mut val: u32 = 0;
    let mut i: usize = 0;
    while i < p.len()
        invariant
            i <= p@.len() <= 3,
            val == digits_value(p@.subrange(0, i as int), 10),
            forall|j: int| 0 <= j < i ==> is_dec(#[trigger] p@[j]),
            i == 0 ==> val == 0,
            i == 1 ==> val < 10,
            i == 2 ==> val < 100,
            i == 3 ==> val < 1000,
        decreases p@.len() - i,
    {
        let c = p[i];
        if !('0' <= c && c <= '9') {
            return None;
        }
        let d = digit_exec(c);
        assert(p@.subrange(0, i as int + 1).drop_last() =~= p@.subrange(0, i as int));
        val = val * 10 + d;
        i = i + 1;
    }
    assert(p@.subrange(0, p@.len() as int) =~= p@);
    if p.len() > 1 && p[0] == '0' {
        return None;
    }
    if val > 255 {
        return None;
    }
    Some(val as u8)
}

fn parse_hex_group(p: &Vec<char>) -> (r: Option<u16>)
    ensures
        r == hex_group(p@),
{
    if p.len() == 0 || p.len() > 4 {
        return None;
    }
    let mut val: u32 = 0;
    let mut i: usize = 0;
    while i < p.len()
        invariant
            i <= p@.len() <= 4,
            val == digits_value(p@.subrange(0, i as int), 16),
            forall|j: int| 0 <= j < i ==> is_hex(#[trigger] p@[j]),
            i == 0 ==> val == 0,
            i == 1 ==> val < 16,
            i == 2 ==> val < 256,
            i == 3 ==> val < 4096,
            i == 4 ==> val < 65536,
        decreases p@.len() - i,
    {
        let c = p[i];
        if !(('0' <= c && c <= '9') || ('a' <= c && c <= 'f') || ('A' <= c && c <= 'F')) {
            return None;
        }
        let d = digit_exec(c);
        assert(p@.subrange(0, i as int + 1).drop_last() =~= p@.subrange(0, i as int));
        val = val * 16 + d;
        i = i + 1;
    }
    assert(p@.subrange(0, p@.len() as int) =~= p@);
    Some(val as u16)
}

pub fn ipv4_from_chars(s: &Vec<char>) -> (r: Option<u32>)
    ensures
        r == ipv4_spec(s@),
{
    let p = split_chars(s, '.');
    if p.len() != 4 {
        return None;
    }
    let a = match parse_dec_octet(&p[0]) {
        Some(x) => x,
        None => return None,
    };
    let b = match parse_dec_octet(&p[1]) {
        Some(x) => x,
        None => return None,
    };
    let c = match parse_dec_octet(&p[2]) {
        Some(x) => x,
        None => return None,
    };
    let d = match parse_dec_octet(&p[3]) {
        Some(x) => x,
        None => return None,
    };
    Some(((a as u32) << 24u32) | ((b as u32) << 16u32) | ((c as u32) << 8u32) | (d as u32))
}

fn hex_groups_exec(ps: &Vec<Vec<char>>, n: usize) -> (r: Option<Vec<u16>>)
    requires
        n <= ps@.len(),
    ensures
        r matches Some(g) ==> hex_groups(ps@.subrange(0, n as int).map_values(|v: Vec<char>| v@))
            == Some(g@),
        r is None ==> hex_groups(ps@.subrange(0, n as int).map_values(|v: Vec<char>| v@))
            is None,
{
    let mut out: Vec<u16> = Vec::new();
    let mut i: usize = 0;
    while i < n
        invariant
            i <= n <= ps@.len(),
            hex_groups(ps@.subrange(0, i as int).map_values(|v: Vec<char>| v@)) == Some(out@),
        decreases n - i,
    {
        let ghost pre = ps@.subrange(0, i as int).map_values(|v: Vec<char>| v@);
        let ghost post = ps@.subrange(0, i as int + 1).map_values(|v: Vec<char>| v@);
        assert(post.drop_last() =~= pre);
        assert(post.last() == ps@[i as int]@);
        match parse_hex_group(&ps[i]) {
            Some(x) => {
                out.push(x);
            },
            None => {
                assert(hex_groups(post) is None);
                proof {
                    lemma_hex_groups_prefix_none(ps@.map_values(|v: Vec<char>| v@), i as int + 1, n as int);
                    assert(ps@.map_values(|v: Vec<char>| v@).subrange(0, i as int + 1) =~= post);
                    assert(ps@.map_values(|v: Vec<char>| v@).subrange(0, n as int) =~= ps@.subrange(0, n as int).map_values(|v: Vec<char>| v@));
                }
                return None;
            },
        }
        i = i + 1;
    }
    Some(out)
}

proof fn lemma_hex_groups_prefix_none(ps: Seq<Seq<char>>, i: int, n: int)
    requires
        0 <= i <= n <= ps.len(),
        hex_groups(ps.subrange(0, i)) is None,
    ensures
        hex_groups(ps.subrange(0, n)) is None,
    decreases n - i,
{
    if n > i {
        lemma_hex_groups_prefix_none(ps, i, n - 1);
        assert(ps.subrange(0, n).drop_last() =~= ps.subrange(0, n - 1));
    }
}

fn group_list_exec(ps: &Vec<Vec<char>>) -> (r: Option<Vec<u16>>)
    ensures
        r matches Some(g) ==> group_list(ps@.map_values(|v: Vec<char>| v@)) == Some(g@),
        r is None ==> group_list(ps@.map_values(|v: Vec<char>| v@)) is None,
{
    let ghost views = ps@.map_values(|v: Vec<char>| v@);
    if ps.len() == 0 {
        return None;
    }
    let n = ps.len() - 1;
    assert(views.drop_last() =~= ps@.subrange(0, n as int).map_values(|v: Vec<char>| v@));
    let mut g = match hex_groups_exec(ps, n) {
        Some(g) => g,
        None => return None,
    };
    match parse_hex_group(&ps[n]) {
        Some(x) => {
            g.push(x);
            Some(g)
        },
        None => match ipv4_from_chars(&ps[n]) {
            Some(v) => {
                let ghost before = g@;
                g.push((v >> 16u32) as u16);
                g.push((v & 0xffffu32) as u16);
                assert(g@ =~= before + v4_as_groups(v));
                Some(g)
            },
            None => None,
        },
    }
}

fn side_groups_exec(s: &Vec<char>) -> (r: Option<Vec<u16>>)
    ensures
        r matches Some(g) ==> side_groups(s@) == Some(g@),
        r is None ==> side_groups(s@) is None,
{
    if s.len() == 0 {
        return Some(Vec::new());
    }
    let ps = split_chars(s, ':');
    assert(ps@.map_values(|v: Vec<char>| v@) =~= split_spec(s@, ':'));
    group_list_exec(&ps)
}

fn find_double_colon_exec(s: &Vec<char>) -> (r: Option<usize>)
    ensures
        r matches Some(k) ==> find_double_colon(s@, 0) == k as int,
        r matches Some(k) ==> k + 2 <= s@.len(),
        r is None ==> find_double_colon(s@, 0) < 0,
{
    if s.len() < 2 {
        return None;
    }
    let mut i: usize = 0;
    while i < s.len() - 1
        invariant
            s@.len() >= 2,
            i <= s@.len() - 1,
            find_double_colon(s@, 0) == find_double_colon(s@, i as int),
        decreases s@.len() - i,
    {
        if s[i] == ':' && s[i + 1] == ':' {
            return Some(i);
        }
        i = i + 1;
    }
    None
}

fn v6_from_group_vec(g: &Vec<u16>) -> (r: u128)
    requires
        g@.len() == 8,
    ensures
        r == v6_from_groups(g@),
{
    ((g[0] as u128) << 112u128) | ((g[1] as u128) << 96u128) | ((g[2] as u128) << 80u128) | ((
    g[3] as u128) << 64u128) | ((g[4] as u128) << 48u128) | ((g[5] as u128) << 32u128) | ((
    g[6] as u128) << 16u128) | (g[7] as u128)
}

pub fn ipv6_from_chars(s: &Vec<char>) -> (r: Option<u128>)
    ensures
        r == ipv6_spec(s@),
{
    let found = find_double_colon_exec(s);
    match found {
        None => {
            let ps = split_chars(s, ':');
            assert(ps@.map_values(|v: Vec<char>| v@) =~= split_spec(s@, ':'));
            match group_list_exec(&ps) {
                Some(g) => if g.len() == 8 {
                    Some(v6_from_group_vec(&g))
                } else {
                    None
                },
                None => None,
            }
        },
        Some(k) => {
            let len = s.len();
            let head = sub_chars(s, 0, k);
            let tail = sub_chars(s, k + 2, len);
            let h = match side_groups_exec(&head) {
                Some(h) => h,
                None => return None,
            };
            let t = match side_groups_exec(&tail) {
                Some(t) => t,
                None => return None,
            };
            if h.len() > 7 || t.len() > 7 - h.len() {
                return None;
            }
            let mut full: Vec<u16> = Vec::new();
            let mut i: usize = 0;
            while i < h.len()
                invariant
                    i <= h@.len(),
                    full@ == h@.subrange(0, i as int),
                decreases h@.len() - i,
            {
                full.push(h[i]);
                assert(full@ =~= h@.subrange(0, i as int + 1));
                i = i + 1;
            }
            let zeros = 8 - h.len() - t.len();
            let mut z: usize = 0;
            while z < zeros
                invariant
                    z <= zeros,
                    zeros == 8 - h@.len() - t@.len(),
                    full@ == h@ + Seq::new(z as nat, |i: int| 0u16),
                decreases zeros - z,
            {
                full.push(0u16);
                assert(full@ =~= h@ + Seq::new(z as nat + 1, |i: int| 0u16));
                z = z + 1;
            }
            let ghost mid = full@;
            let mut j: usize = 0;
            while j < t.len()
                invariant
                    j <= t@.len(),
                    full@ == mid + t@.subrange(0, j as int),
                decreases t@.len() - j,
            {
                full.push(t[j]);
                assert(full@ =~= mid + t@.subrange(0, j as int + 1));
                j = j + 1;
            }
            assert(full@ =~= h@ + Seq::new((8 - h@.len() - t@.len()) as nat, |i: int| 0u16)
                + t@);
            Some(v6_from_group_vec(&full))
        },
    }
}

/// Parses IPv4 text.
pub fn parse_ipv4(s: &str) -> (r: Option<u32>)
    ensures
        r == ipv4_spec(s@),
{
    let cs = crate::text::chars_of(s);
    ipv4_from_chars(&cs)
}

/// Parses IPv6 text.
pub fn parse_ipv6(s: &str) -> (r: Option<u128>)
    ensures
        r == ipv6_spec(s@),
{
    let cs = crate::text::chars_of(s);
    ipv6_from_chars(&cs)
}

/// Parses IPv4 or IPv6 text held as characters.
pub fn ip_from_chars(cs: &Vec<char>) -> (r: Option<IpAddress>)
    ensures
        r == ip_spec(cs@),
{
    match ipv4_from_chars(cs) {
        Some(v) => Some(IpAddress::V4(v)),
        None => match ipv6_from_chars(cs) {
            Some(v) => Some(IpAddress::V6(v)),
            None => None,
        },
    }
}

/// Parses IPv4 or IPv6 text.
pub fn parse_ip(s: &str) -> (r: Option<IpAddress>)
    ensures
        r == ip_spec(s@),
{
    let cs = crate::text::chars_of(s);
    ip_from_chars(&cs)
}

} // verus!
