//! The kernel's table of IPv6 interface addresses (`/proc/net/if_inet6`):
//! which addresses of an interface are deprecated.
//!
//! Each line holds, separated by white space: the address as 32 hex
//! digits, the interface index, the prefix length, the scope, the flags in
//! hex, and the interface name.

use vstd::prelude::*;
use crate::services::cloudflare::{hex_id, parse_hex_id};
use crate::text::{chars_of, is_space, is_space_exec, split_chars, split_spec};

verus! {

/// The flag of a deprecated address.
pub const IFA_F_DEPRECATED: u128 = 0x20;

/// The words of `s` so far: those finished, and the one being read.
pub open spec fn words_acc(s: Seq<char>) -> (Seq<Seq<char>>, Seq<char>)
    decreases s.len(),
{
    if s.len() == 0 {
        (Seq::empty(), Seq::empty())
    } else {
        let (done, cur) = words_acc(s.drop_last());
        if is_space(s.last()) {
            if cur.len() > 0 {
                (done.push(cur), Seq::empty())
            } else {
                (done, cur)
            }
        } else {
            (done, cur.push(s.last()))
        }
    }
}

/// The words of `s`: its maximal runs without white space, in order.
pub open spec fn words(s: Seq<char>) -> Seq<Seq<char>> {
    let (done, cur) = words_acc(s);
    if cur.len() > 0 {
        done.push(cur)
    } else {
        done
    }
}

/// The deprecated address that a line reports for interface `iface`.
pub open spec fn deprecated_in_line(line: Seq<char>, iface: Seq<char>) -> Option<u128> {
    let w = words(line);
    if w.len() >= 6 && w[5] == iface && hex_id(w[0]) is Some && hex_id(w[4]) is Some && hex_id(w[4])->0
        <= 255 && (hex_id(w[4])->0 & IFA_F_DEPRECATED) != 0 {
        Some(hex_id(w[0])->0)
    } else {
        None
    }
}

/// The deprecated addresses of `iface` that lines `ls` report, in order.
pub open spec fn deprecated_in_lines(ls: Seq<Seq<char>>, iface: Seq<char>) -> Seq<u128>
    decreases ls.len(),
{
    if ls.len() == 0 {
        Seq::empty()
    } else {
        let before = deprecated_in_lines(ls.drop_last(), iface);
        match deprecated_in_line(ls.last(), iface) {
            Some(a) => before.push(a),
            None => before,
        }
    }
}

fn words_exec(s: &Vec<char>) -> (r: Vec<Vec<char>>)
    ensures
        r@.len() == words(s@).len(),
        forall|k: int| 0 <= k < r@.len() ==> #[trigger] r@[k]@ == words(s@)[k],
{
    let mut done: Vec<Vec<char>> = Vec::new();
    let mut cur: Vec<char> = Vec::new();
    let mut i: usize = 0;
    while i < s.len()
        invariant
            i <= s@.len(),
            done@.len() == words_acc(s@.subrange(0, i as int)).0.len(),
            forall|k: int| 0 <= k < done@.len() ==> #[trigger] done@[k]@ == words_acc(s@.subrange(0, i as int)).0[k],
            cur@ == words_acc(s@.subrange(0, i as int)).1,
        decreases s@.len() - i,
    {
        assert(s@.subrange(0, i as int + 1).drop_last() =~= s@.subrange(0, i as int));
        let c = s[i];
        if is_space_exec(c) {
            if cur.len() > 0 {
                let finished = cur;
                done.push(finished);
                cur = Vec::new();
            }
        } else {
            cur.push(c);
        }
        proof {
            let ghost t = s@.subrange(0, i as int + 1);
            assert(t.last() == c);
        }
        i = i + 1;
        assert(cur@ =~= words_acc(s@.subrange(0, i as int)).1);
    }
    assert(s@.subrange(0, s@.len() as int) =~= s@);
    if cur.len() > 0 {
        done.push(cur);
    }
    done
}

fn same_chars(a: &Vec<char>, b: &Vec<char>) -> (r: bool)
    ensures
        r == (a@ == b@),
{
    if a.len() != b.len() {
        return false;
    }
    let mut i: usize = 0;
    while i < a.len()
        invariant
            i <= a@.len() == b@.len(),
            forall|j: int| 0 <= j < i ==> a@[j] == b@[j],
        decreases a@.len() - i,
    {
        if a[i] != b[i] {
            return false;
        }
        i = i + 1;
    }
    assert(a@ =~= b@);
    true
}

fn deprecated_line_exec(line: &Vec<char>, iface: &Vec<char>) -> (r: Option<u128>)
    ensures
        r == deprecated_in_line(line@, iface@),
{
    let w = words_exec(line);
    if w.len() < 6 {
        return None;
    }
    if !same_chars(&w[5], iface) {
        return None;
    }
    let address = match parse_hex_id(crate::text::string_from_chars(&w[0]).as_str()) {
        Some(a) => a,
        None => return None,
    };
    let flags = match parse_hex_id(crate::text::string_from_chars(&w[4]).as_str()) {
        Some(f) => f,
        None => return None,
    };
    if flags <= 255 && (flags & IFA_F_DEPRECATED) != 0 {
        Some(address)
    } else {
        None
    }
}

/// The deprecated addresses of interface `iface` in the kernel's table
/// `content`.
pub fn deprecated_v6_addresses(content: &str, iface: &str) -> (r: Vec<u128>)
    ensures
        r@ == deprecated_in_lines(split_spec(content@, '\n'), iface@),
{
    let cs = chars_of(content);
    let ic = chars_of(iface);
    let lines = split_chars(&cs, '\n');
    let ghost ls = split_spec(content@, '\n');
    let mut out: Vec<u128> = Vec::new();
    let mut i: usize = 0;
    while i < lines.len()
        invariant
            i <= lines@.len(),
            lines@.len() == ls.len(),
            forall|k: int| 0 <= k < lines@.len() ==> #[trigger] lines@[k]@ == ls[k],
            ic@ == iface@,
            out@ == deprecated_in_lines(ls.subrange(0, i as int), iface@),
        decreases lines@.len() - i,
    {
        assert(ls.subrange(0, i as int + 1).drop_last() =~= ls.subrange(0, i as int));
        assert(ls.subrange(0, i as int + 1).last() == lines@[i as int]@);
        match deprecated_line_exec(&lines[i], &ic) {
            Some(a) => out.push(a),
            None => {},
        }
        i = i + 1;
    }
    assert(ls.subrange(0, ls.len() as int) =~= ls);
    out
}

} // verus!
