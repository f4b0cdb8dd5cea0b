//! Networks given as an address and a mask, parsed from `addr/prefix` or
//! `addr/mask` text, and the containment test.

use vstd::prelude::*;
use crate::addr::{ipv4_spec, ipv6_spec, is_dec, digits_value};
use crate::text::chars_of;

verus! {

/// An IPv4 network: an address and a mask.
#[derive(Clone, Copy, Debug, PartialEq, Eq, Structural, Hash)]
pub struct NetworkV4 {
    pub address: u32,
    pub mask: u32,
}

/// An IPv6 network: an address and a mask.
#[derive(Clone, Copy, Debug, PartialEq, Eq, Structural, Hash)]
pub struct NetworkV6 {
    pub address: u128,
    pub mask: u128,
}

/// Why `addr/prefix` or `addr/mask` text was refused.
#[derive(Clone, Copy, Debug, PartialEq, Eq, Structural, Hash)]
pub enum NetworkParseErr {
    /// No `/` in the text.
    MaskUnspecified,
    /// The text before the `/` is no address of the family.
    InvalidAddress,
    /// The text after the `/` is neither a prefix length nor a mask.
    InvalidMask,
    /// The prefix length exceeds the width of the family.
    MaskTooLarge,
}

impl NetworkParseErr {
    /// A human-readable description.
    pub fn message(&self) -> (r: &'static str)
        ensures
            *self == NetworkParseErr::MaskUnspecified ==> r == "a prefix or bitmask was not specified",
            *self == NetworkParseErr::InvalidAddress ==> r == "an invalid address was specified",
            *self == NetworkParseErr::InvalidMask ==> r == "an invalid netmask was provided",
            *self == NetworkParseErr::MaskTooLarge ==> r == "the provided netmask was too large for the protocol",
    {
        match self {
            NetworkParseErr::MaskUnspecified => "a prefix or bitmask was not specified",
            NetworkParseErr::InvalidAddress => "an invalid address was specified",
            NetworkParseErr::InvalidMask => "an invalid netmask was provided",
            NetworkParseErr::MaskTooLarge => "the provided netmask was too large for the protocol",
        }
    }
}

/// The mask of the first `prefix` bits of 32.
pub open spec fn prefix_mask_v4(prefix: u8) -> u32 {
    if prefix == 0 {
        0u32
    } else {
        (!0u32) << ((32 - prefix) as u32)
    }
}

/// The mask of the first `prefix` bits of 128.
pub open spec fn prefix_mask_v6(prefix: u8) -> u128 {
    if prefix == 0 {
        0u128
    } else {
        (!0u128) << ((128 - prefix) as u128)
    }
}

pub open spec fn in_range_v4(n: NetworkV4, a: u32) -> bool {
    (n.address & n.mask) == (a & n.mask)
}

pub open spec fn in_range_v6(n: NetworkV6, a: u128) -> bool {
    (n.address & n.mask) == (a & n.mask)
}

/// The index of the first `c` in `s` at or after `i`, or -1.
pub open spec fn find_char(s: Seq<char>, c: char, i: int) -> int
    decreases s.len() - i,
{
    if i < 0 || i >= s.len() {
        -1
    } else if s[i] == c {
        i
    } else {
        find_char(s, c, i + 1)
    }
}

/// `s` is a decimal number: one or more digits.
pub open spec fn is_decimal(s: Seq<char>) -> bool {
    s.len() >= 1 && forall|i: int| 0 <= i < s.len() ==> is_dec(#[trigger] s[i])
}

/// A number, capped at 129: enough to tell every prefix length of either
/// family from those that are too large.
pub open spec fn capped(x: int) -> int {
    if x > 128 {
        129
    } else {
        x
    }
}

/// The text before the first `/`.
pub open spec fn before_slash(s: Seq<char>) -> Seq<char> {
    s.subrange(0, find_char(s, '/', 0))
}

/// The text after the first `/`.
pub open spec fn after_slash(s: Seq<char>) -> Seq<char> {
    s.subrange(find_char(s, '/', 0) + 1, s.len() as int)
}

/// What `addr/prefix` or `addr/mask` text means as an IPv4 network.
pub open spec fn network_v4_spec(s: Seq<char>) -> Result<NetworkV4, NetworkParseErr> {
    if find_char(s, '/', 0) < 0 {
        Err(NetworkParseErr::MaskUnspecified)
    } else {
        match ipv4_spec(before_slash(s)) {
            None => Err(NetworkParseErr::InvalidAddress),
            Some(address) => if is_decimal(after_slash(s)) {
                if digits_value(after_slash(s), 10) <= 32 {
                    Ok(NetworkV4 { address, mask: prefix_mask_v4(digits_value(after_slash(s), 10) as u8) })
                } else {
                    Err(NetworkParseErr::MaskTooLarge)
                }
            } else {
                match ipv4_spec(after_slash(s)) {
                    Some(mask) => Ok(NetworkV4 { address, mask }),
                    None => Err(NetworkParseErr::InvalidMask),
                }
            },
        }
    }
}

/// What `addr/prefix` or `addr/mask` text means as an IPv6 network.
pub open spec fn network_v6_spec(s: Seq<char>) -> Result<NetworkV6, NetworkParseErr> {
    if find_char(s, '/', 0) < 0 {
        Err(NetworkParseErr::MaskUnspecified)
    } else {
        match ipv6_spec(before_slash(s)) {
            None => Err(NetworkParseErr::InvalidAddress),
            Some(address) => if is_decimal(after_slash(s)) {
                if digits_value(after_slash(s), 10) <= 128 {
                    Ok(NetworkV6 { address, mask: prefix_mask_v6(digits_value(after_slash(s), 10) as u8) })
                } else {
                    Err(NetworkParseErr::MaskTooLarge)
                }
            } else {
                match ipv6_spec(after_slash(s)) {
                    Some(mask) => Ok(NetworkV6 { address, mask }),
                    None => Err(NetworkParseErr::InvalidMask),
                }
            },
        }
    }
}

fn find_char_exec(s: &Vec<char>, c: char) -> (r: Option<usize>)
    ensures
        r matches Some(k) ==> find_char(s@, c, 0) == k as int && k < s@.len(),
        r is None ==> find_char(s@, c, 0) < 0,
{
    let mut i: usize = 0;
    while i < s.len()
        invariant
            i <= s@.len(),
            find_char(s@, c, 0) == find_char(s@, c, i as int),
        decreases s@.len() - i,
    {
        if s[i] == c {
            return Some(i);
        }
        i = i + 1;
    }
    None
}

/// Reads a prefix length: `None` unless `s` is a decimal number, else its
/// value capped at 129.
fn parse_prefix_chars(s: &Vec<char>) -> (r: Option<u32>)
    ensures
        r is Some <==> is_decimal(s@),
        r matches Some(v) ==> v == capped(digits_value(s@, 10)),
{
    if s.len() == 0 {
        return None;
    }
    let mut val: u32 = 0;
    let mut i: usize = 0;
    while i < s.len()
        invariant
            i <= s@.len(),
            forall|j: int| 0 <= j < i ==> is_dec(#[trigger] s@[j]),
            digits_value(s@.subrange(0, i as int), 10) >= 0,
            val == capped(digits_value(s@.subrange(0, i as int), 10)),
        decreases s@.len() - i,
    {
        let c = s[i];
        if !('0' <= c && c <= '9') {
            assert(!is_dec(s@[i as int]));
            return None;
        }
        assert(s@.subrange(0, i as int + 1).drop_last() =~= s@.subrange(0, i as int));
        let d = (c as u32) - ('0' as u32);
        val = if val > 128 {
            129
        } else if val * 10 + d > 128 {
            129
        } else {
            val * 10 + d
        };
        i = i + 1;
    }
    assert(s@.subrange(0, s@.len() as int) =~= s@);
    Some(val)
}

impl NetworkV4 {
    /// The network of the first `prefix` bits of `addr`.
    pub fn from_prefix(addr: u32, prefix: u8) -> (r: Self)
        requires
            prefix <= 32,
        ensures
            r.address == addr,
            r.mask == prefix_mask_v4(prefix),
    {
        let mask: u32 = if prefix == 0 {
            0
        } else {
            (!0u32) << ((32 - prefix) as u32)
        };
        NetworkV4 { address: addr, mask }
    }

    /// The network of `addr` under `mask`.
    pub fn from_mask(addr: u32, mask: u32) -> (r: Self)
        ensures
            r.address == addr,
            r.mask == mask,
    {
        NetworkV4 { address: addr, mask }
    }

    /// Whether `addr` agrees with this network's address on the mask bits.
    pub fn in_range(&self, addr: u32) -> (r: bool)
        ensures
            r == in_range_v4(*self, addr),
    {
        (self.address & self.mask) == (addr & self.mask)
    }

    /// Parses `addr/prefix` or `addr/mask` text.
    pub fn parse(s: &str) -> (r: Result<Self, NetworkParseErr>)
        ensures
            r == network_v4_spec(s@),
            r matches Ok(n) ==> in_range_v4(n, n.address),
    {
        let cs = chars_of(s);
        NetworkV4::parse_chars(&cs)
    }

    /// Parses `addr/prefix` or `addr/mask` text held as characters.
    pub fn parse_chars(cs: &Vec<char>) -> (r: Result<Self, NetworkParseErr>)
        ensures
            r == network_v4_spec(cs@),
            r matches Ok(n) ==> in_range_v4(n, n.address),
    {
        let len = cs.len();
        let slash = match find_char_exec(cs, '/') {
            Some(k) => k,
            None => return Err(NetworkParseErr::MaskUnspecified),
        };
        let head = crate::text::sub_chars(cs, 0, slash);
        let tail = crate::text::sub_chars(cs, slash + 1, len);
        let address = match crate::addr::ipv4_from_chars(&head) {
            Some(a) => a,
            None => return Err(NetworkParseErr::InvalidAddress),
        };
        match parse_prefix_chars(&tail) {
            Some(p) => if p <= 32 {
                Ok(NetworkV4::from_prefix(address, p as u8))
            } else {
                Err(NetworkParseErr::MaskTooLarge)
            },
            None => match crate::addr::ipv4_from_chars(&tail) {
                Some(mask) => Ok(NetworkV4::from_mask(address, mask)),
                None => Err(NetworkParseErr::InvalidMask),
            },
        }
    }
}

impl NetworkV6 {
    /// The network of the first `prefix` bits of `addr`.
    pub fn from_prefix(addr: u128, prefix: u8) -> (r: Self)
        requires
            prefix <= 128,
        ensures
            r.address == addr,
            r.mask == prefix_mask_v6(prefix),
    {
        let mask: u128 = if prefix == 0 {
            0
        } else {
            (!0u128) << ((128 - prefix) as u128)
        };
        NetworkV6 { address: addr, mask }
    }

    /// The network of `addr` under `mask`.
    pub fn from_mask(addr: u128, mask: u128) -> (r: Self)
        ensures
            r.address == addr,
            r.mask == mask,
    {
        NetworkV6 { address: addr, mask }
    }

    /// Whether `addr` agrees with this network's address on the mask bits.
    pub fn in_range(&self, addr: u128) -> (r: bool)
        ensures
            r == in_range_v6(*self, addr),
    {
        (self.address & self.mask) == (addr & self.mask)
    }

    /// Parses `addr/prefix` or `addr/mask` text.
    pub fn parse(s: &str) -> (r: Result<Self, NetworkParseErr>)
        ensures
            r == network_v6_spec(s@),
            r matches Ok(n) ==> in_range_v6(n, n.address),
    {
        let cs = chars_of(s);
        NetworkV6::parse_chars(&cs)
    }

    /// Parses `addr/prefix` or `addr/mask` text held as characters.
    pub fn parse_chars(cs: &Vec<char>) -> (r: Result<Self, NetworkParseErr>)
        ensures
            r == network_v6_spec(cs@),
            r matches Ok(n) ==> in_range_v6(n, n.address),
    {
        let len = cs.len();
        let slash = match find_char_exec(cs, '/') {
            Some(k) => k,
            None => return Err(NetworkParseErr::MaskUnspecified),
        };
        let head = crate::text::sub_chars(cs, 0, slash);
        let tail = crate::text::sub_chars(cs, slash + 1, len);
        let address = match crate::addr::ipv6_from_chars(&head) {
            Some(a) => a,
            None => return Err(NetworkParseErr::InvalidAddress),
        };
        match parse_prefix_chars(&tail) {
            Some(p) => if p <= 128 {
                Ok(NetworkV6::from_prefix(address, p as u8))
            } else {
                Err(NetworkParseErr::MaskTooLarge)
            },
            None => match crate::addr::ipv6_from_chars(&tail) {
                Some(mask) => Ok(NetworkV6::from_mask(address, mask)),
                None => Err(NetworkParseErr::InvalidMask),
            },
        }
    }
}

impl Default for NetworkV4 {
    fn default() -> (r: Self)
        ensures
            r.address == 0 && r.mask == 0,
    {
        NetworkV4 { address: 0, mask: 0 }
    }
}

impl Default for NetworkV6 {
    fn default() -> (r: Self)
        ensures
            r.address == 0 && r.mask == 0,
    {
        NetworkV6 { address: 0, mask: 0 }
    }
}

impl core::str::FromStr for NetworkV4 {
    type Err = NetworkParseErr;

    fn from_str(s: &str) -> Result<Self, NetworkParseErr> {
        NetworkV4::parse(s)
    }
}

impl core::str::FromStr for NetworkV6 {
    type Err = NetworkParseErr;

    fn from_str(s: &str) -> Result<Self, NetworkParseErr> {
        NetworkV6::parse(s)
    }
}

/// A network parsed from text contains the address written before its `/`.
pub proof fn lemma_parsed_v4_contains_own_address(s: Seq<char>)
    requires
        network_v4_spec(s) is Ok,
    ensures
        ipv4_spec(before_slash(s)) is Some,
        in_range_v4(network_v4_spec(s)->Ok_0, ipv4_spec(before_slash(s))->0),
{
}

/// A network parsed from text contains the address written before its `/`.
pub proof fn lemma_parsed_v6_contains_own_address(s: Seq<char>)
    requires
        network_v6_spec(s) is Ok,
    ensures
        ipv6_spec(before_slash(s)) is Some,
        in_range_v6(network_v6_spec(s)->Ok_0, ipv6_spec(before_slash(s))->0),
{
}

/// The network of prefix length 0 contains every IPv4 address.
pub proof fn lemma_prefix_zero_contains_all_v4(addr: u32, other: u32)
    ensures
        in_range_v4(NetworkV4 { address: addr, mask: prefix_mask_v4(0) }, other),
{
    assert((addr & 0u32) == (other & 0u32)) by (bit_vector);
}

/// The network of prefix length 0 contains every IPv6 address.
pub proof fn lemma_prefix_zero_contains_all_v6(addr: u128, other: u128)
    ensures
        in_range_v6(NetworkV6 { address: addr, mask: prefix_mask_v6(0) }, other),
{
    assert((addr & 0u128) == (other & 0u128)) by (bit_vector);
}

/// The network of the full prefix contains exactly its own address.
pub proof fn lemma_full_prefix_is_exact_v4(addr: u32, other: u32)
    ensures
        in_range_v4(NetworkV4 { address: addr, mask: prefix_mask_v4(32) }, other) <==> other
            == addr,
{
    assert(((!0u32) << 0u32) == 0xffff_ffffu32) by (bit_vector);
    assert((addr & 0xffff_ffffu32) == addr && (other & 0xffff_ffffu32) == other) by (bit_vector);
}

} // verus!
