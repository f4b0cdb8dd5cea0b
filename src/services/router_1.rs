//! A home router's IPv6 firewall, kept open to the current address through
//! its web form. Here: the URL-encoded form bodies it expects, with their
//! checksum field.

use vstd::prelude::*;
use vstd::utf8::encode_utf8;
use crate::base64::{base64_of, base64_encode};
use crate::addr::{digits_value, ipv6_spec, is_dec};
use crate::services::DdnsUpdateError;
use crate::text::{chars_of, decimal_text, hex_digit, hex_digit_exec, push_decimal, string_from_chars, sub_chars};

verus! {

#[derive(Clone, Debug, PartialEq, Eq)]
pub struct Config {
    pub username: String,
    pub password: String,
    pub gateway: String,
    pub protocol: Protocol,
    pub direction: Direction,
    pub dest_port: u16,
    pub allowed: bool,
}

#[derive(Clone, Copy, Debug, PartialEq, Eq, Structural, Hash)]
pub enum Protocol {
    Tcp,
    Udp,
    Icmpv6,
}

#[derive(Clone, Copy, Debug, PartialEq, Eq, Structural, Hash)]
pub enum Direction {
    Outgoing,
    Incoming,
}

/// The router's encoding of a password: base64 of its UTF-8 bytes.
pub fn encode_password(password: &str) -> (r: String)
    requires
        encode_utf8(password@).len() <= usize::MAX / 512,
    ensures
        r@ == base64_of(encode_utf8(password@)),
{
    base64_encode(password.as_bytes())
}

/// `b` in upper-case hex, without leading zeros.
pub open spec fn hex_text(b: u8) -> Seq<char> {
    if b < 16 {
        seq![hex_digit(b as int)]
    } else {
        seq![hex_digit(b as int / 16), hex_digit(b as int % 16)]
    }
}

pub open spec fn is_alnum_byte(b: u8) -> bool {
    (48 <= b <= 57) || (65 <= b <= 90) || (97 <= b <= 122)
}

/// How one byte of a value is written in a form body.
pub open spec fn encode_byte(b: u8) -> Seq<char> {
    if is_alnum_byte(b) || b == 42 || b == 45 || b == 46 || b == 95 {
        seq![b as char]
    } else if b == 32 {
        seq!['+']
    } else {
        seq!['%'] + hex_text(b)
    }
}

/// A value written in a form body, byte by byte.
pub open spec fn encode_value(b: Seq<u8>) -> Seq<char>
    decreases b.len(),
{
    if b.len() == 0 {
        Seq::empty()
    } else {
        encode_value(b.drop_last()) + encode_byte(b.last())
    }
}

/// `key=value&` for each pair, in order.
pub open spec fn form_fields(pairs: Seq<(&str, &str)>) -> Seq<char>
    decreases pairs.len(),
{
    if pairs.len() == 0 {
        Seq::empty()
    } else {
        form_fields(pairs.drop_last()) + pairs.last().0@ + seq!['='] + encode_value(
            encode_utf8(pairs.last().1@),
        ) + seq!['&']
    }
}

/// The weight of the byte at `i`: bytes are summed as big-endian 32-bit
/// words.
pub open spec fn byte_weight(i: int) -> int {
    if i % 4 == 0 {
        16777216
    } else if i % 4 == 1 {
        65536
    } else if i % 4 == 2 {
        256
    } else {
        1
    }
}

/// The sum of `b` as big-endian 32-bit words (a short last word padded
/// with zeros), modulo 2^32.
pub open spec fn word_sum(b: Seq<u8>) -> int
    decreases b.len(),
{
    if b.len() == 0 {
        0
    } else {
        (word_sum(b.drop_last()) + b.last() * byte_weight(b.len() - 1)) % 0x1_0000_0000
    }
}

/// The form checksum: the word sum folded to 16 bits, complemented.
pub open spec fn form_checksum(b: Seq<u8>) -> int {
    let s = word_sum(b);
    let folded = (s % 65536 + s / 65536) % 65536;
    65535 - folded
}

/// The whole form body: the fields, then `postSecurityFlag=` and the
/// checksum of the fields' bytes in decimal.
pub open spec fn form_body(pairs: Seq<(&str, &str)>) -> Seq<char> {
    form_fields(pairs) + "postSecurityFlag="@ + decimal_text(
        form_checksum(encode_utf8(form_fields(pairs))) as nat,
    )
}

fn push_encoded_byte(out: &mut Vec<char>, b: u8)
    ensures
        final(out)@ == old(out)@ + encode_byte(b),
{
    if (48 <= b && b <= 57) || (65 <= b && b <= 90) || (97 <= b && b <= 122) || b == 42 || b == 45
        || b == 46 || b == 95 {
        out.push(b as char);
    } else if b == 32 {
        out.push('+');
    } else {
        out.push('%');
        if b >= 16 {
            out.push(hex_digit_exec(b / 16));
        }
        out.push(hex_digit_exec(b % 16));
    }
    assert(final(out)@ =~= old(out)@ + encode_byte(b));
}

fn checksum_of(b: &[u8]) -> (r: u32)
    ensures
        r == form_checksum(b@),
{
    let mut sum: u64 = 0;
    let mut i: usize = 0;
    while i < b.len()
        invariant
            i <= b@.len(),
            sum == word_sum(b@.subrange(0, i as int)),
            sum < 0x1_0000_0000,
        decreases b@.len() - i,
    {
        assert(b@.subrange(0, i as int + 1).drop_last() =~= b@.subrange(0, i as int));
        let weight: u64 = if i % 4 == 0 {
            16777216
        } else if i % 4 == 1 {
            65536
        } else if i % 4 == 2 {
            256
        } else {
            1
        };
        assert(weight == byte_weight(i as int));
        assert(b[i as int] as u64 * weight <= 255 * 16777216) by (nonlinear_arith)
            requires
                weight <= 16777216,
                b[i as int] <= 255,
        ;
        sum = (sum + b[i] as u64 * weight) % 0x1_0000_0000;
        i = i + 1;
    }
    assert(b@.subrange(0, b@.len() as int) =~= b@);
    let folded = (sum % 65536 + sum / 65536) % 65536;
    (65535 - folded) as u32
}

/// The form body for `data`: each pair as `key=value&` with the value's
/// bytes encoded, then `postSecurityFlag=` and the checksum in decimal.
pub fn generate_form(data: &[(&str, &str)]) -> (r: String)
    ensures
        r@ == form_body(data@),
{
    let mut out: Vec<char> = Vec::new();
    let mut i: usize = 0;
    while i < data.len()
        invariant
            i <= data@.len(),
            out@ == form_fields(data@.subrange(0, i as int)),
        decreases data@.len() - i,
    {
        assert(data@.subrange(0, i as int + 1).drop_last() =~= data@.subrange(0, i as int));
        let (key, value) = data[i];
        let kc = crate::text::chars_of(key);
        let mut k: usize = 0;
        let ghost start = out@;
        while k < kc.len()
            invariant
                k <= kc@.len(),
                out@ == start + kc@.subrange(0, k as int),
            decreases kc@.len() - k,
        {
            out.push(kc[k]);
            assert(out@ =~= start + kc@.subrange(0, k as int + 1));
            k = k + 1;
        }
        assert(kc@.subrange(0, kc@.len() as int) =~= kc@);
        out.push('=');
        let vb = value.as_bytes();
        let ghost mid = out@;
        let mut j: usize = 0;
        while j < vb.len()
            invariant
                j <= vb@.len(),
                out@ == mid + encode_value(vb@.subrange(0, j as int)),
            decreases vb@.len() - j,
        {
            assert(vb@.subrange(0, j as int + 1).drop_last() =~= vb@.subrange(0, j as int));
            push_encoded_byte(&mut out, vb[j]);
            assert(out@ =~= mid + encode_value(vb@.subrange(0, j as int + 1)));
            j = j + 1;
        }
        assert(vb@.subrange(0, vb@.len() as int) =~= vb@);
        out.push('&');
        assert(out@ =~= form_fields(data@.subrange(0, i as int + 1)));
        i = i + 1;
    }
    assert(data@.subrange(0, data@.len() as int) =~= data@);
    let fields = string_from_chars(&out);
    let sum = checksum_of(fields.as_str().as_bytes());
    let label = crate::text::chars_of("postSecurityFlag=");
    let mut k: usize = 0;
    let ghost start = out@;
    while k < label.len()
        invariant
            k <= label@.len(),
            out@ == start + label@.subrange(0, k as int),
        decreases label@.len() - k,
    {
        out.push(label[k]);
        assert(out@ =~= start + label@.subrange(0, k as int + 1));
        k = k + 1;
    }
    assert(label@.subrange(0, label@.len() as int) =~= label@);
    push_decimal(&mut out, sum);
    string_from_chars(&out)
}


/// The index of the first occurrence of `p` in `s` at or after `i`, or -1.
pub open spec fn find_sub(s: Seq<char>, p: Seq<char>, i: int) -> int
    decreases s.len() - i,
{
    if i < 0 || i + p.len() > s.len() {
        -1
    } else if s.subrange(i, i + p.len()) == p {
        i
    } else if i >= s.len() {
        -1
    } else {
        find_sub(s, p, i + 1)
    }
}

/// `s` up to the first `p`, or all of `s` without one.
pub open spec fn before(s: Seq<char>, p: Seq<char>) -> Seq<char> {
    if find_sub(s, p, 0) < 0 {
        s
    } else {
        s.subrange(0, find_sub(s, p, 0))
    }
}

/// `s` up to the first `p`, if there is one.
pub open spec fn before_some(s: Seq<char>, p: Seq<char>) -> Option<Seq<char>> {
    if find_sub(s, p, 0) < 0 {
        None
    } else {
        Some(s.subrange(0, find_sub(s, p, 0)))
    }
}

/// The `n`-th piece (from 0) of `s` split at each `p`.
pub open spec fn piece(s: Seq<char>, p: Seq<char>, n: nat) -> Option<Seq<char>>
    decreases n,
{
    let k = find_sub(s, p, 0);
    if n == 0 {
        Some(before(s, p))
    } else if k < 0 {
        None
    } else {
        piece(s.subrange(k + p.len(), s.len() as int), p, (n - 1) as nat)
    }
}

/// The digits of a number: the text without a leading `+`.
pub open spec fn sign_stripped(s: Seq<char>) -> Seq<char> {
    if s.len() > 0 && s[0] == '+' {
        s.drop_first()
    } else {
        s
    }
}

/// A decimal number not above `max`: an optional `+`, then digits.
pub open spec fn decimal_upto(s: Seq<char>, max: u64) -> Option<u64> {
    let d = sign_stripped(s);
    if d.len() >= 1 && (forall|i: int| 0 <= i < d.len() ==> is_dec(#[trigger] d[i])) && digits_value(d, 10) <= max {
        Some(digits_value(d, 10) as u64)
    } else {
        None
    }
}

pub open spec fn lower_eq(c: char, l: char) -> bool {
    c == l || ('A' <= c && c <= 'Z' && c as u32 + 32 == l as u32)
}

/// `s` is `l` (lower case) up to the case of ASCII letters.
pub open spec fn ascii_eq_lower(s: Seq<char>, l: Seq<char>) -> bool {
    s.len() == l.len() && forall|i: int| 0 <= i < s.len() ==> lower_eq(#[trigger] s[i], l[i])
}

/// The protocol a table cell names.
pub open spec fn protocol_named(s: Seq<char>) -> Option<Protocol> {
    if ascii_eq_lower(s, "tcp"@) {
        Some(Protocol::Tcp)
    } else if ascii_eq_lower(s, "udp"@) {
        Some(Protocol::Udp)
    } else if ascii_eq_lower(s, "icmpv6"@) {
        Some(Protocol::Icmpv6)
    } else {
        None
    }
}

/// The text of cell `n` of a table row.
pub open spec fn cell(tr: Seq<char>, n: nat) -> Option<Seq<char>> {
    match piece(tr, "<td>"@, n) {
        Some(c) => before_some(c, "</td>"@),
        None => None,
    }
}

/// The name of a row's checkbox.
pub open spec fn checkbox_name(tr: Seq<char>) -> Option<Seq<char>> {
    match piece(tr, "<td>"@, 1) {
        Some(c) => match piece(c, "<input type=\"checkbox\" name=\""@, 1) {
            Some(x) => before_some(x, "\""@),
            None => None,
        },
        None => None,
    }
}

/// What a filter row says: the index of the rule when it is the rule this
/// service made (same protocol, destination `old` and `port`); nothing for
/// other rules and for address or port ranges; `Err` when the row cannot be
/// read.
pub open spec fn row_result(tr: Seq<char>, proto: Protocol, old: Option<u128>, port: u16) -> Result<Option<usize>, ()> {
    match (checkbox_name(tr), cell(tr, 3), cell(tr, 6)) {
        (Some(name), Some(protocol), Some(raw_ip)) => if find_sub(raw_ip, "-"@, 0) >= 0 {
            Ok(None)
        } else {
            match cell(tr, 7) {
                None => Err(()),
                Some(port_text) => if find_sub(port_text, "-"@, 0) >= 0 {
                    Ok(None)
                } else if before(raw_ip, "/"@).len() == 0 {
                    Ok(None)
                } else {
                    match (ipv6_spec(before(raw_ip, "/"@)), protocol_named(protocol)) {
                        (Some(ip), Some(p)) => if p == proto && old == Some(ip) {
                            match decimal_upto(port_text, 65535) {
                                None => Err(()),
                                Some(v) => if v == port as u64 {
                                    if name.len() >= 6 && name.subrange(0, 6) == "select"@ {
                                        match decimal_upto(name.subrange(6, name.len() as int), usize::MAX as u64) {
                                            Some(i) => Ok(Some(i as usize)),
                                            None => Err(()),
                                        }
                                    } else {
                                        Err(())
                                    }
                                } else {
                                    Ok(None)
                                },
                            }
                        } else {
                            Ok(None)
                        },
                        (None, _) => Err(()),
                        (Some(_), None) => Err(()),
                    }
                },
            }
        },
        _ => Err(()),
    }
}

/// The rows of the filter table from position `i` on: each starts at a
/// `<tr><td>` and ends before the next `</tr>`; the first row that names
/// the rule decides, an unreadable row fails.
pub open spec fn scan_rows(s: Seq<char>, i: int, proto: Protocol, old: Option<u128>, port: u16) -> Result<Option<usize>, ()>
    decreases s.len() - i,
{
    if i < 0 || i + 8 > s.len() {
        Ok(None)
    } else if s.subrange(i, i + 8) == "<tr><td>"@ {
        match row_result(before(s.subrange(i, s.len() as int), "</tr>"@), proto, old, port) {
            Ok(None) => scan_rows(s, i + 8, proto, old, port),
            r => r,
        }
    } else {
        scan_rows(s, i + 1, proto, old, port)
    }
}

/// The marker before the table of IPv6 filters.
pub open spec fn table_marker() -> Seq<char> {
    "<form action=/boaform/formFilterV6 method=POST name=\"formFilterDel\">"@
}

/// What the filter page `content` says of the rule this service made.
pub open spec fn filter_index_spec(content: Seq<char>, proto: Protocol, old: Option<u128>, port: u16) -> Result<Option<usize>, ()> {
    let k = find_sub(content, table_marker(), 0);
    if k < 0 {
        Ok(None)
    } else {
        scan_rows(content.subrange(k, content.len() as int), 0, proto, old, port)
    }
}

fn same_at(s: &Vec<char>, i: usize, p: &Vec<char>) -> (r: bool)
    requires
        i + p@.len() <= s@.len(),
    ensures
        r == (s@.subrange(i as int, i + p@.len()) == p@),
{
    let n = s.len();
    let mut j: usize = 0;
    while j < p.len()
        invariant
            n == s@.len(),
            i + p@.len() <= s@.len(),
            j <= p@.len(),
            forall|k: int| 0 <= k < j ==> s@[i + k] == p@[k],
        decreases p@.len() - j,
    {
        if s[i + j] != p[j] {
            assert(s@.subrange(i as int, i + p@.len())[j as int] != p@[j as int]);
            return false;
        }
        j = j + 1;
    }
    assert(s@.subrange(i as int, i + p@.len()) =~= p@);
    true
}

fn find_sub_exec(s: &Vec<char>, p: &Vec<char>) -> (r: Option<usize>)
    ensures
        r matches Some(k) ==> find_sub(s@, p@, 0) == k && k + p@.len() <= s@.len(),
        r is None ==> find_sub(s@, p@, 0) == -1,
{
    if p.len() > s.len() {
        return None;
    }
    let slen = s.len();
    let last = slen - p.len();
    let mut i: usize = 0;
    while i <= last
        invariant
            slen == s@.len(),
            last + p@.len() == slen,
            i <= last + 1,
            find_sub(s@, p@, 0) == find_sub(s@, p@, i as int),
        decreases last + 1 - i,
    {
        let same = same_at(s, i, p);
        if same {
            return Some(i);
        }
        if i == last {
            assert(find_sub(s@, p@, i as int + 1) == -1);
            return None;
        }
        i = i + 1;
    }
    None
}

fn before_exec(s: &Vec<char>, p: &Vec<char>) -> (r: Vec<char>)
    ensures
        r@ == before(s@, p@),
{
    match find_sub_exec(s, p) {
        Some(k) => sub_chars(s, 0, k),
        None => {
            let len = s.len();
            let r = sub_chars(s, 0, len);
            assert(r@ =~= s@);
            r
        },
    }
}

fn before_some_exec(s: &Vec<char>, p: &Vec<char>) -> (r: Option<Vec<char>>)
    ensures
        r matches Some(v) ==> before_some(s@, p@) == Some(v@),
        r is None ==> before_some(s@, p@) is None,
{
    match find_sub_exec(s, p) {
        Some(k) => Some(sub_chars(s, 0, k)),
        None => None,
    }
}

fn piece_exec(s: &Vec<char>, p: &Vec<char>, n: usize) -> (r: Option<Vec<char>>)
    ensures
        r matches Some(v) ==> piece(s@, p@, n as nat) == Some(v@),
        r is None ==> piece(s@, p@, n as nat) is None,
    decreases n,
{
    if n == 0 {
        return Some(before_exec(s, p));
    }
    match find_sub_exec(s, p) {
        None => None,
        Some(k) => {
            let len = s.len();
            let rest = sub_chars(s, k + p.len(), len);
            piece_exec(&rest, p, n - 1)
        },
    }
}

fn cell_exec(tr: &Vec<char>, n: usize) -> (r: Option<Vec<char>>)
    ensures
        r matches Some(v) ==> cell(tr@, n as nat) == Some(v@),
        r is None ==> cell(tr@, n as nat) is None,
{
    match piece_exec(tr, &chars_of("<td>"), n) {
        Some(c) => before_some_exec(&c, &chars_of("</td>")),
        None => None,
    }
}

fn checkbox_name_exec(tr: &Vec<char>) -> (r: Option<Vec<char>>)
    ensures
        r matches Some(v) ==> checkbox_name(tr@) == Some(v@),
        r is None ==> checkbox_name(tr@) is None,
{
    match piece_exec(tr, &chars_of("<td>"), 1) {
        Some(c) => match piece_exec(&c, &chars_of("<input type=\"checkbox\" name=\""), 1) {
            Some(x) => before_some_exec(&x, &chars_of("\"")),
            None => None,
        },
        None => None,
    }
}

fn decimal_overflow(s: &Vec<char>, start: usize, upto: usize, max: u64) -> (r: Option<u64>)
    requires
        start <= 1,
        start == 1 <==> (s@.len() > 0 && s@[0] == '+'),
        start < upto <= s@.len(),
        forall|j: int| start <= j < upto ==> is_dec(#[trigger] s@[j]),
        digits_value(s@.subrange(start as int, upto as int), 10) > max,
    ensures
        r == decimal_upto(s@, max),
        r is None,
{
    let ghost d = s@.subrange(start as int, s@.len() as int);
    assert(s@.len() > 0 && s@[0] == '+' ==> d =~= s@.drop_first());
    assert(!(s@.len() > 0 && s@[0] == '+') ==> d =~= s@);
    let mut i: usize = upto;
    assert(d == sign_stripped(s@));
    while i < s.len()
        invariant
            start < upto <= i <= s@.len(),
            d == s@.subrange(start as int, s@.len() as int),
            d == sign_stripped(s@),
            forall|j: int| start <= j < i ==> is_dec(#[trigger] s@[j]),
        decreases s@.len() - i,
    {
        if !('0' <= s[i] && s[i] <= '9') {
            assert(!is_dec(d[i - start]));
            return None;
        }
        i = i + 1;
    }
    proof {
        assert forall|j: int| 0 <= j < d.len() implies is_dec(#[trigger] d[j]) by {
            assert(d[j] == s@[j + start]);
        }
        assert(s@.subrange(start as int, upto as int) =~= d.subrange(0, upto - start));
        lemma_digits_grow(d, upto - start);
    }
    None
}

proof fn lemma_digits_grow(s: Seq<char>, i: int)
    requires
        0 <= i <= s.len(),
        forall|j: int| 0 <= j < s.len() ==> is_dec(#[trigger] s[j]),
    ensures
        0 <= digits_value(s.subrange(0, i), 10) <= digits_value(s, 10),
    decreases s.len() - i,
{
    if i < s.len() {
        lemma_digits_grow(s, i + 1);
        assert(s.subrange(0, i + 1).drop_last() =~= s.subrange(0, i));
    } else {
        assert(s.subrange(0, i) =~= s);
        lemma_digits_nonneg(s);
    }
}

proof fn lemma_digits_nonneg(s: Seq<char>)
    requires
        forall|j: int| 0 <= j < s.len() ==> is_dec(#[trigger] s[j]),
    ensures
        digits_value(s, 10) >= 0,
    decreases s.len(),
{
    if s.len() > 0 {
        lemma_digits_nonneg(s.drop_last());
    }
}

fn decimal_exec(s: &Vec<char>, max: u64) -> (r: Option<u64>)
    ensures
        r == decimal_upto(s@, max),
{
    let start: usize = if s.len() > 0 && s[0] == '+' {
        1
    } else {
        0
    };
    let ghost d = s@.subrange(start as int, s@.len() as int);
    assert(s@.len() > 0 && s@[0] == '+' ==> d =~= s@.drop_first());
    assert(!(s@.len() > 0 && s@[0] == '+') ==> d =~= s@);
    if s.len() <= start {
        return None;
    }
    let mut val: u64 = 0;
    let mut i: usize = start;
    while i < s.len()
        invariant
            start <= i <= s@.len(),
            start <= 1,
            start == 1 <==> (s@.len() > 0 && s@[0] == '+'),
            d == s@.subrange(start as int, s@.len() as int),
            d == sign_stripped(s@),
            val == digits_value(s@.subrange(start as int, i as int), 10),
            val <= max,
            forall|j: int| start <= j < i ==> is_dec(#[trigger] s@[j]),
        decreases s@.len() - i,
    {
        let c = s[i];
        if !('0' <= c && c <= '9') {
            assert(!is_dec(d[i - start]));
            return None;
        }
        assert(s@.subrange(start as int, i as int + 1).drop_last() =~= s@.subrange(start as int, i as int));
        let next: u128 = val as u128 * 10 + ((c as u32) - ('0' as u32)) as u128;
        if next > max as u128 {
            return decimal_overflow(s, start, i + 1, max);
        }
        val = next as u64;
        i = i + 1;
    }
    assert(s@.subrange(start as int, s@.len() as int) == d);
    Some(val)
}

fn ascii_eq_lower_exec(s: &Vec<char>, l: &str) -> (r: bool)
    ensures
        r == ascii_eq_lower(s@, l@),
{
    let lc = chars_of(l);
    if s.len() != lc.len() {
        return false;
    }
    let mut i: usize = 0;
    while i < s.len()
        invariant
            i <= s@.len() == lc@.len(),
            lc@ == l@,
            forall|j: int| 0 <= j < i ==> lower_eq(#[trigger] s@[j], lc@[j]),
        decreases s@.len() - i,
    {
        let c = s[i];
        let m = lc[i];
        if !(c == m || ('A' <= c && c <= 'Z' && c as u32 + 32 == m as u32)) {
            return false;
        }
        i = i + 1;
    }
    true
}

fn protocol_named_exec(s: &Vec<char>) -> (r: Option<Protocol>)
    ensures
        r == protocol_named(s@),
{
    if ascii_eq_lower_exec(s, "tcp") {
        Some(Protocol::Tcp)
    } else if ascii_eq_lower_exec(s, "udp") {
        Some(Protocol::Udp)
    } else if ascii_eq_lower_exec(s, "icmpv6") {
        Some(Protocol::Icmpv6)
    } else {
        None
    }
}

fn row_exec(tr: &Vec<char>, proto: Protocol, old: Option<u128>, port: u16) -> (r: Result<Option<usize>, ()>)
    ensures
        r == row_result(tr@, proto, old, port),
{
    let name = match checkbox_name_exec(tr) {
        Some(n) => n,
        None => return Err(()),
    };
    let protocol = match cell_exec(tr, 3) {
        Some(p) => p,
        None => return Err(()),
    };
    let raw_ip = match cell_exec(tr, 6) {
        Some(p) => p,
        None => return Err(()),
    };
    let dash = chars_of("-");
    if find_sub_exec(&raw_ip, &dash).is_some() {
        return Ok(None);
    }
    let port_text = match cell_exec(tr, 7) {
        Some(p) => p,
        None => return Err(()),
    };
    if find_sub_exec(&port_text, &dash).is_some() {
        return Ok(None);
    }
    let ip_text = before_exec(&raw_ip, &chars_of("/"));
    if ip_text.len() == 0 {
        return Ok(None);
    }
    let ip = match crate::addr::ipv6_from_chars(&ip_text) {
        Some(a) => a,
        None => return Err(()),
    };
    let p = match protocol_named_exec(&protocol) {
        Some(p) => p,
        None => return Err(()),
    };
    let same_protocol = match (p, proto) {
        (Protocol::Tcp, Protocol::Tcp) | (Protocol::Udp, Protocol::Udp) | (Protocol::Icmpv6, Protocol::Icmpv6) => true,
        _ => false,
    };
    let same_address = match old {
        Some(o) => o == ip,
        None => false,
    };
    if !(same_protocol && same_address) {
        return Ok(None);
    }
    let v = match decimal_exec(&port_text, 65535) {
        Some(v) => v,
        None => return Err(()),
    };
    if v != port as u64 {
        return Ok(None);
    }
    let prefix = chars_of("select");
    proof {
        reveal_strlit("select");
    }
    if name.len() < 6 {
        return Err(());
    }
    if !same_at(&name, 0, &prefix) {
        return Err(());
    }
    let len = name.len();
    let rest = sub_chars(&name, 6, len);
    match decimal_exec(&rest, usize::MAX as u64) {
        Some(i) => Ok(Some(i as usize)),
        None => Err(()),
    }
}

/// The index of the IPv6 filter rule this service made earlier (protocol
/// `proto`, destination `old`, port `port`), read from the router's filter
/// page `content`.
pub fn find_filter_index(content: &str, proto: Protocol, old: Option<u128>, port: u16) -> (r: Result<Option<usize>, DdnsUpdateError>)
    ensures
        filter_index_spec(content@, proto, old, port) matches Ok(v) ==> r == Ok::<Option<usize>, DdnsUpdateError>(v),
        filter_index_spec(content@, proto, old, port) is Err ==> r matches Err(DdnsUpdateError::Router1(0, _)),
{
    let cs = chars_of(content);
    let marker = chars_of("<form action=/boaform/formFilterV6 method=POST name=\"formFilterDel\">");
    let k = match find_sub_exec(&cs, &marker) {
        Some(k) => k,
        None => return Ok(None),
    };
    let len = cs.len();
    let s = sub_chars(&cs, k, len);
    let row_start = chars_of("<tr><td>");
    let row_end = chars_of("</tr>");
    proof {
        reveal_strlit("<tr><td>");
    }
    let slen = s.len();
    assert(cs@ == content@);
    assert(filter_index_spec(content@, proto, old, port) == scan_rows(s@, 0, proto, old, port));
    let mut i: usize = 0;
    while i < slen && slen - i >= 8
        invariant
            slen == s@.len(),
            filter_index_spec(content@, proto, old, port) == scan_rows(s@, 0, proto, old, port),
            row_start@ == "<tr><td>"@,
            row_start@.len() == 8,
            row_end@ == "</tr>"@,
            i <= slen,
            scan_rows(s@, 0, proto, old, port) == scan_rows(s@, i as int, proto, old, port),
        decreases slen - i,
    {
        let same = same_at(&s, i, &row_start);
        if same {
            let tail = sub_chars(&s, i, slen);
            let tr = before_exec(&tail, &row_end);
            match row_exec(&tr, proto, old, port) {
                Ok(None) => {
                    i = i + 8;
                },
                Ok(Some(idx)) => return Ok(Some(idx)),
                Err(()) => {
                    return Err(DdnsUpdateError::Router1(0, String::from_str("Unable to parse v6 filter returned by router")));
                },
            }
        } else {
            i = i + 1;
        }
    }
    Ok(None)
}

} // verus!
