//! Porkbun: each configured domain is updated by name and record type.
//! Here: how a domain splits into the registered domain and the subdomain.

use vstd::prelude::*;
use crate::addr::IpAddress;
use crate::services::opt_seq;
use crate::text::{chars_of, string_from_chars, sub_chars};
use crate::util::FixedVec;

verus! {

#[derive(Clone, Debug, PartialEq, Eq)]
pub struct Config {
    pub secret_api_key: String,
    pub api_key: String,
    pub domains: Vec<String>,
}

/// The addresses Porkbun confirmed: the IPv4 address when some update of
/// an `A` record succeeded, then the IPv6 address when some update of an
/// `AAAA` record did.
pub fn confirmed(ipv4: Option<IpAddress>, ipv6: Option<IpAddress>, ipv4_ok: bool, ipv6_ok: bool) -> (r: FixedVec<IpAddress, 2>)
    ensures
        r.wf(),
        r.view() == (if ipv4_ok { opt_seq(ipv4) } else { Seq::empty() }) + (if ipv6_ok {
            opt_seq(ipv6)
        } else {
            Seq::empty()
        }),
{
    let mut result: FixedVec<IpAddress, 2> = FixedVec::new();
    if ipv4_ok {
        if let Some(a) = ipv4 {
            result.push(a);
        }
    }
    if ipv6_ok {
        if let Some(a) = ipv6 {
            result.push(a);
        }
    }
    proof {
        assert(result.view() =~= (if ipv4_ok { opt_seq(ipv4) } else { Seq::empty() }) + (if ipv6_ok {
            opt_seq(ipv6)
        } else {
            Seq::empty()
        }));
    }
    result
}

/// The index of the last `.` of `s` before `end`, or -1.
pub open spec fn last_dot_before(s: Seq<char>, end: int) -> int
    decreases end,
{
    if end <= 0 {
        -1
    } else if s[end - 1] == '.' {
        end - 1
    } else {
        last_dot_before(s, end - 1)
    }
}

fn last_dot_before_exec(s: &Vec<char>, end: usize) -> (r: Option<usize>)
    requires
        end <= s@.len(),
    ensures
        r matches Some(i) ==> i as int == last_dot_before(s@, end as int) && i < end,
        r is None ==> last_dot_before(s@, end as int) == -1,
{
    let mut e: usize = end;
    while e > 0
        invariant
            e <= end <= s@.len(),
            last_dot_before(s@, end as int) == last_dot_before(s@, e as int),
        decreases e,
    {
        if s[e - 1] == '.' {
            return Some(e - 1);
        }
        e = e - 1;
    }
    None
}

/// The subdomain (all but the last two labels) and the registered domain
/// (the last two labels) of `domain`.
pub fn split_domain(domain: &str) -> (r: (String, String))
    ensures
        ({
            let s = domain@;
            let last = last_dot_before(s, s.len() as int);
            let point = if last < 0 { -1 } else { last_dot_before(s, last) };
            if point < 0 {
                r.0@.len() == 0 && r.1@ == s
            } else {
                r.0@ == s.subrange(0, point) && r.1@ == s.subrange(point + 1, s.len() as int)
            }
        }),
{
    let cs = chars_of(domain);
    let len = cs.len();
    let last = match last_dot_before_exec(&cs, len) {
        Some(i) => i,
        None => return (String::new(), String::from_str(domain)),
    };
    match last_dot_before_exec(&cs, last) {
        Some(point) => (string_from_chars(&sub_chars(&cs, 0, point)), string_from_chars(&sub_chars(&cs, point + 1, len))),
        None => (String::new(), String::from_str(domain)),
    }
}

} // verus!
