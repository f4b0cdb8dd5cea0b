//! Cloudflare: records are found once through the zone and record
//! listings, kept for the run, and each matching record is set to the new
//! address. Here: what is kept from the listings and which records get
//! which address.

use vstd::prelude::*;
use crate::addr::IpAddress;
use crate::services::{DdnsUpdateError, RecordKind, address_for, is_listed, listed, record_kind, record_kind_spec};
use crate::text::{chars_of, has_prefix, starts_with};
use crate::json::{Json, as_array, as_str, as_u64, items_of, member, text_of, u64_of};

verus! {

#[derive(Clone, Debug, PartialEq, Eq)]
pub struct Config {
    pub ttl: u32,
    pub proxied: bool,
    pub token: String,
    pub domains: Vec<String>,
}

/// A record found in a zone.
#[derive(Clone, Debug, PartialEq, Eq)]
pub struct Record {
    pub zone_id: u128,
    pub id: u128,
    pub domain: String,
    pub kind: RecordKind,
}

#[derive(Clone, Debug, PartialEq, Eq)]
pub struct Service {
    pub config: Config,
    /// The records to keep current, found on the first update.
    pub cached_records: Vec<Record>,
}

/// `s` holds `p` somewhere.
pub open spec fn contains_text(s: Seq<char>, p: Seq<char>) -> bool {
    exists|i: int| 0 <= i && i + p.len() <= s.len() && #[trigger] s.subrange(i, i + p.len()) == p
}

fn contains_exec(s: &Vec<char>, p: &str) -> (r: bool)
    ensures
        r == contains_text(s@, p@),
{
    let pc = chars_of(p);
    if pc.len() > s.len() {
        return false;
    }
    if pc.len() == 0 {
        assert(s@.subrange(0int, 0int + p@.len()) =~= p@);
        return true;
    }
    let slen = s.len();
    let last = slen - pc.len();
    let mut i: usize = 0;
    while i <= last
        invariant
            pc@ == p@,
            pc@.len() >= 1,
            slen == s@.len(),
            last == s@.len() - pc@.len(),
            last + pc@.len() == slen,
            i <= last + 1,
            forall|j: int| 0 <= j < i ==> #[trigger] s@.subrange(j, j + pc@.len()) != p@,
        decreases last + 1 - i,
    {
        let sub = crate::text::sub_chars(s, i, i + pc.len());
        let found = starts_with(&sub, p);
        assert(sub@.subrange(0, p@.len() as int) =~= sub@);
        if found {
            return true;
        }
        i = i + 1;
    }
    false
}

/// Among a zone's permissions, those on DNS records allow reading and
/// editing.
pub open spec fn zone_editable_spec(perms: Seq<Seq<char>>) -> bool {
    (exists|i: int| 0 <= i < perms.len() && has_prefix(#[trigger] perms[i], "#dns_records"@)
        && contains_text(perms[i], "read"@)) && (exists|i: int|
        0 <= i < perms.len() && has_prefix(#[trigger] perms[i], "#dns_records"@) && contains_text(
            perms[i],
            "edit"@,
        ))
}

pub open spec fn texts(v: Seq<String>) -> Seq<Seq<char>> {
    v.map_values(|s: String| s@)
}

/// Whether a zone with permissions `perms` lets its DNS records be read and
/// edited.
pub fn zone_editable(perms: &Vec<String>) -> (r: bool)
    ensures
        r == zone_editable_spec(texts(perms@)),
{
    let mut can_read = false;
    let mut can_edit = false;
    let mut i: usize = 0;
    while i < perms.len()
        invariant
            i <= perms@.len(),
            can_read == exists|j: int| 0 <= j < i && has_prefix(#[trigger] texts(perms@)[j], "#dns_records"@)
                && contains_text(texts(perms@)[j], "read"@),
            can_edit == exists|j: int| 0 <= j < i && has_prefix(#[trigger] texts(perms@)[j], "#dns_records"@)
                && contains_text(texts(perms@)[j], "edit"@),
        decreases perms@.len() - i,
    {
        let cs = chars_of(perms[i].as_str());
        assert(texts(perms@)[i as int] == cs@);
        if starts_with(&cs, "#dns_records") {
            if contains_exec(&cs, "read") {
                can_read = true;
            }
            if contains_exec(&cs, "edit") {
                can_edit = true;
            }
        }
        i = i + 1;
    }
    can_read && can_edit
}

/// A hex digit's value.
pub open spec fn hex_value(s: Seq<char>) -> int
    decreases s.len(),
{
    if s.len() == 0 {
        0
    } else {
        hex_value(s.drop_last()) * 16 + crate::addr::digit_val(s.last())
    }
}

/// An identifier: one or more hex digits whose value fits 128 bits.
pub open spec fn hex_id(s: Seq<char>) -> Option<u128> {
    if s.len() >= 1 && (forall|i: int| 0 <= i < s.len() ==> crate::addr::is_hex(#[trigger] s[i]))
        && hex_value(s) <= u128::MAX {
        Some(hex_value(s) as u128)
    } else {
        None
    }
}

proof fn lemma_hex_value_grows(s: Seq<char>, i: int)
    requires
        0 <= i <= s.len(),
        forall|j: int| 0 <= j < s.len() ==> crate::addr::is_hex(#[trigger] s[j]),
    ensures
        0 <= hex_value(s.subrange(0, i)) <= hex_value(s),
    decreases s.len() - i,
{
    if i < s.len() {
        lemma_hex_value_grows(s, i + 1);
        assert(s.subrange(0, i + 1).drop_last() =~= s.subrange(0, i));
    } else {
        assert(s.subrange(0, i) =~= s);
        lemma_hex_value_nonneg(s);
    }
}

proof fn lemma_hex_value_nonneg(s: Seq<char>)
    requires
        forall|j: int| 0 <= j < s.len() ==> crate::addr::is_hex(#[trigger] s[j]),
    ensures
        hex_value(s) >= 0,
    decreases s.len(),
{
    if s.len() > 0 {
        lemma_hex_value_nonneg(s.drop_last());
    }
}

/// Parses an identifier written in hex.
pub fn parse_hex_id(s: &str) -> (r: Option<u128>)
    ensures
        r == hex_id(s@),
{
    let cs = chars_of(s);
    if cs.len() == 0 {
        return None;
    }
    let mut i: usize = 0;
    while i < cs.len()
        invariant
            i <= cs@.len(),
            cs@ == s@,
            forall|j: int| 0 <= j < i ==> crate::addr::is_hex(#[trigger] cs@[j]),
        decreases cs@.len() - i,
    {
        let c = cs[i];
        if !(('0' <= c && c <= '9') || ('a' <= c && c <= 'f') || ('A' <= c && c <= 'F')) {
            assert(!crate::addr::is_hex(cs@[i as int]));
            return None;
        }
        i = i + 1;
    }
    let mut val: u128 = 0;
    let mut k: usize = 0;
    while k < cs.len()
        invariant
            k <= cs@.len(),
            cs@ == s@,
            cs@.len() >= 1,
            forall|j: int| 0 <= j < cs@.len() ==> crate::addr::is_hex(#[trigger] cs@[j]),
            val == hex_value(cs@.subrange(0, k as int)),
        decreases cs@.len() - k,
    {
        assert(cs@.subrange(0, k as int + 1).drop_last() =~= cs@.subrange(0, k as int));
        let c = cs[k];
        let d: u128 = if '0' <= c && c <= '9' {
            (c as u128) - ('0' as u128)
        } else if 'a' <= c && c <= 'f' {
            (c as u128) - ('a' as u128) + 10
        } else {
            (c as u128) - ('A' as u128) + 10
        };
        assert(d == crate::addr::digit_val(c));
        assert(hex_value(cs@.subrange(0, k as int + 1)) == val * 16 + d);
        if val > (u128::MAX - d) / 16 {
            proof {
                lemma_hex_value_grows(cs@, k as int + 1);
                assert(val * 16 + d > u128::MAX) by (nonlinear_arith)
                    requires
                        val > (u128::MAX - d) / 16,
                        d < 16,
                ;
            }
            return None;
        }
        assert(val * 16 + d <= u128::MAX) by (nonlinear_arith)
            requires
                val <= (u128::MAX - d) / 16,
                d < 16,
        ;
        val = val * 16 + d;
        k = k + 1;
    }
    assert(cs@.subrange(0, cs@.len() as int) =~= cs@);
    Some(val)
}

/// What is kept of one zone of the listing: its identifier when its DNS
/// records may be read and edited, nothing when they may not, an error when
/// the identifier is no hex number.
pub fn zone_from_listing(id: &str, perms: &Vec<String>) -> (r: Result<Option<u128>, DdnsUpdateError>)
    ensures
        !zone_editable_spec(texts(perms@)) ==> r == Ok::<Option<u128>, DdnsUpdateError>(None),
        zone_editable_spec(texts(perms@)) && hex_id(id@) is Some ==> r == Ok::<Option<u128>, DdnsUpdateError>(Some(hex_id(id@)->0)),
        zone_editable_spec(texts(perms@)) && hex_id(id@) is None ==> r matches Err(DdnsUpdateError::Json(_)),
{
    if !zone_editable(perms) {
        return Ok(None);
    }
    match parse_hex_id(id) {
        Some(z) => Ok(Some(z)),
        None => Err(DdnsUpdateError::Json(String::from_str("id is not a u128 number"))),
    }
}

/// What is kept of one record of a zone's listing: the record when it
/// carries an address, nothing for other types, an error when its
/// identifier is no hex number.
pub fn record_from_listing(zone_id: u128, id: &str, name: &str, ty: &str) -> (r: Result<Option<Record>, DdnsUpdateError>)
    ensures
        hex_id(id@) is None ==> r matches Err(DdnsUpdateError::Json(_)),
        hex_id(id@) is Some && record_kind_spec(ty@) is None ==> r == Ok::<Option<Record>, DdnsUpdateError>(None),
        hex_id(id@) is Some && record_kind_spec(ty@) is Some ==> (r matches Ok(Some(rec)) && rec.zone_id == zone_id
            && rec.id == hex_id(id@)->0 && rec.domain@ == name@ && rec.kind == record_kind_spec(ty@)->0),
{
    let id = match parse_hex_id(id) {
        Some(v) => v,
        None => return Err(DdnsUpdateError::Json(String::from_str("id is not a u128 number"))),
    };
    match record_kind(ty) {
        Some(kind) => Ok(Some(Record { zone_id, id, domain: String::from_str(name), kind })),
        None => Ok(None),
    }
}

impl Service {
    /// A service for `config`, its token made a bearer credential.
    pub fn from(config: Config) -> (r: Self)
        ensures
            r.config.token@ == "Bearer "@ + config.token@,
            r.config.domains == config.domains,
            r.config.ttl == config.ttl,
            r.config.proxied == config.proxied,
            r.cached_records@.len() == 0,
    {
        let mut config = config;
        config.token = String::from_str("Bearer ").concat(config.token.as_str());
        Service { config, cached_records: Vec::new() }
    }

    /// Keeps, of the records found, those of the configured domains, in
    /// order.
    pub fn cache_records(&mut self, found: Vec<Record>)
        ensures
            final(self).config == old(self).config,
            final(self).cached_records@ == old(self).cached_records@ + kept_records(
                old(self).config.domains@,
                found@,
            ),
    {
        let ghost start = self.cached_records@;
        let ghost all = found@;
        let n = found.len();
        let mut rest = found;
        let mut k: usize = 0;
        while rest.len() > 0
            invariant
                k <= all.len(),
                rest@ == all.subrange(k as int, all.len() as int),
                all.len() == n,
                self.config == old(self).config,
                start == old(self).cached_records@,
                self.cached_records@ == start + kept_records(self.config.domains@, all.subrange(0, k as int)),
            decreases rest@.len(),
        {
            assert(rest@.len() == all.len() - k);
        let r = rest.remove(0);
            assert(all.subrange(0, k as int + 1).drop_last() =~= all.subrange(0, k as int));
            assert(all[k as int] == r);
            if is_listed(&self.config.domains, &r.domain) {
                self.cached_records.push(r);
            }
            k = k + 1;
            assert(rest@ =~= all.subrange(k as int, all.len() as int));
            assert(self.cached_records@ =~= start + kept_records(self.config.domains@, all.subrange(0, k as int)));
        }
        assert(all.subrange(0, k as int) =~= all);
    }

    /// The records to set, by index into the kept records, and the address
    /// each gets: every `A` record gets `ipv4`, every `AAAA` record `ipv6`.
    pub fn planned_puts(&self, ipv4: Option<IpAddress>, ipv6: Option<IpAddress>) -> (r: Vec<(usize, IpAddress)>)
        ensures
            r@ == puts_for(self.cached_records@, ipv4, ipv6),
    {
        let mut out: Vec<(usize, IpAddress)> = Vec::new();
        let mut i: usize = 0;
        while i < self.cached_records.len()
            invariant
                i <= self.cached_records@.len(),
                out@ == puts_for(self.cached_records@.subrange(0, i as int), ipv4, ipv6),
            decreases self.cached_records@.len() - i,
        {
            assert(self.cached_records@.subrange(0, i as int + 1).drop_last() =~= self.cached_records@.subrange(0, i as int));
            let a = match self.cached_records[i].kind {
                RecordKind::A => ipv4,
                RecordKind::Aaaa => ipv6,
            };
            if let Some(addr) = a {
                out.push((i, addr));
            }
            i = i + 1;
        }
        assert(self.cached_records@.subrange(0, self.cached_records@.len() as int) =~= self.cached_records@);
        out
    }
}

/// The records of `found` whose domain is one of `domains`, in order.
pub open spec fn kept_records(domains: Seq<String>, found: Seq<Record>) -> Seq<Record>
    decreases found.len(),
{
    if found.len() == 0 {
        Seq::empty()
    } else if listed(domains, found.last().domain@) {
        kept_records(domains, found.drop_last()).push(found.last())
    } else {
        kept_records(domains, found.drop_last())
    }
}

/// For each record, by index, the address it is set to, if any.
pub open spec fn puts_for(rs: Seq<Record>, ipv4: Option<IpAddress>, ipv6: Option<IpAddress>) -> Seq<(usize, IpAddress)>
    decreases rs.len(),
{
    if rs.len() == 0 {
        Seq::empty()
    } else {
        match address_for(rs.last().kind, ipv4, ipv6) {
            Some(a) => puts_for(rs.drop_last(), ipv4, ipv6).push(((rs.len() - 1) as usize, a)),
            None => puts_for(rs.drop_last(), ipv4, ipv6),
        }
    }
}


/// The text of a permission; other values count as empty text.
pub open spec fn perm_text(j: Json) -> Seq<char> {
    match j {
        Json::Str(s) => s@,
        _ => Seq::empty(),
    }
}

/// What one zone of the listing gives: an error when it has no `id` text,
/// or when its DNS records may be edited and the id is no hex number;
/// nothing when it lists no permissions or they do not allow editing.
pub open spec fn zone_entry(z: Json) -> Result<Option<u128>, ()> {
    match text_of(member(z, "id"@)) {
        None => Err(()),
        Some(id) => match items_of(member(z, "permissions"@)) {
            None => Ok(None),
            Some(ps) => if zone_editable_spec(ps.map_values(|p: Json| perm_text(p))) {
                match hex_id(id) {
                    Some(v) => Ok(Some(v)),
                    None => Err(()),
                }
            } else {
                Ok(None)
            },
        },
    }
}

/// The editable zones of a listing, in order; the first bad zone fails.
pub open spec fn zones_spec(items: Seq<Json>) -> Result<Seq<u128>, ()>
    decreases items.len(),
{
    if items.len() == 0 {
        Ok(Seq::empty())
    } else {
        match zones_spec(items.drop_last()) {
            Err(()) => Err(()),
            Ok(z) => match zone_entry(items.last()) {
                Err(()) => Err(()),
                Ok(None) => Ok(z),
                Ok(Some(v)) => Ok(z.push(v)),
            },
        }
    }
}

/// What one record of a zone's listing gives: an error when its `id`,
/// `name` or `type` is missing or the id is no hex number; nothing for
/// records that carry no address.
pub open spec fn record_entry(r: Json) -> Result<Option<(u128, Seq<char>, RecordKind)>, ()> {
    match text_of(member(r, "id"@)) {
        None => Err(()),
        Some(id) => match hex_id(id) {
            None => Err(()),
            Some(v) => match (text_of(member(r, "name"@)), text_of(member(r, "type"@))) {
                (Some(name), Some(ty)) => match record_kind_spec(ty) {
                    Some(k) => Ok(Some((v, name, k))),
                    None => Ok(None),
                },
                _ => Err(()),
            },
        },
    }
}

/// The address records of a zone's listing, in order; the first bad record
/// fails.
pub open spec fn records_spec(items: Seq<Json>) -> Result<Seq<(u128, Seq<char>, RecordKind)>, ()>
    decreases items.len(),
{
    if items.len() == 0 {
        Ok(Seq::empty())
    } else {
        match records_spec(items.drop_last()) {
            Err(()) => Err(()),
            Ok(z) => match record_entry(items.last()) {
                Err(()) => Err(()),
                Ok(None) => Ok(z),
                Ok(Some(v)) => Ok(z.push(v)),
            },
        }
    }
}

fn zone_exec(z: &Json) -> (r: Result<Option<u128>, DdnsUpdateError>)
    ensures
        zone_entry(*z) matches Ok(v) ==> r == Ok::<Option<u128>, DdnsUpdateError>(v),
        zone_entry(*z) is Err ==> r matches Err(DdnsUpdateError::Json(_)),
{
    let id = match as_str(z.get("id")) {
        Some(id) => id,
        None => return Err(DdnsUpdateError::Json(String::from_str("zone has no id?"))),
    };
    let ps = match as_array(z.get("permissions")) {
        Some(ps) => ps,
        None => return Ok(None),
    };
    let mut perms: Vec<String> = Vec::new();
    let mut i: usize = 0;
    while i < ps.len()
        invariant
            i <= ps@.len(),
            perms@.len() == i,
            forall|k: int| 0 <= k < i ==> (#[trigger] perms@[k])@ == perm_text(ps@[k]),
        decreases ps@.len() - i,
    {
        let t = match &ps[i] {
            Json::Str(s) => s.clone(),
            _ => String::new(),
        };
        assert(t@ == perm_text(ps@[i as int]));
        perms.push(t);
        i = i + 1;
    }
    assert(texts(perms@) =~= ps@.map_values(|p: Json| perm_text(p)));
    zone_from_listing(id.as_str(), &perms)
}

/// The editable zones of the zone listing `v`.
pub fn zones_from_listing(v: &Json) -> (r: Result<Vec<u128>, DdnsUpdateError>)
    ensures
        items_of(member(*v, "result"@)) is None ==> r matches Err(DdnsUpdateError::Json(_)),
        items_of(member(*v, "result"@)) matches Some(items) ==> (match zones_spec(items) {
            Ok(z) => r matches Ok(w) && w@ == z,
            Err(()) => r matches Err(DdnsUpdateError::Json(_)),
        }),
{
    let items = match as_array(v.get("result")) {
        Some(items) => items,
        None => return Err(DdnsUpdateError::Json(String::from_str("cloudflare returned 0 zones"))),
    };
    let mut out: Vec<u128> = Vec::new();
    let mut i: usize = 0;
    while i < items.len()
        invariant
            i <= items@.len(),
            items_of(member(*v, "result"@)) == Some(items@),
            zones_spec(items@.subrange(0, i as int)) == Ok::<Seq<u128>, ()>(out@),
        decreases items@.len() - i,
    {
        assert(items@.subrange(0, i as int + 1).drop_last() =~= items@.subrange(0, i as int));
        assert(items@.subrange(0, i as int + 1).last() == items@[i as int]);
        match zone_exec(&items[i]) {
            Ok(Some(z)) => out.push(z),
            Ok(None) => {},
            Err(e) => {
                proof {
                    assert(zone_entry(items@[i as int]) is Err);
                    assert(zones_spec(items@.subrange(0, i as int + 1)) is Err);
                    lemma_zones_prefix_err(items@, i as int + 1);
                }
                return Err(e);
            },
        }
        i = i + 1;
    }
    assert(items@.subrange(0, items@.len() as int) =~= items@);
    Ok(out)
}

proof fn lemma_zones_prefix_err(items: Seq<Json>, i: int)
    requires
        0 <= i <= items.len(),
        zones_spec(items.subrange(0, i)) is Err,
    ensures
        zones_spec(items) is Err,
    decreases items.len() - i,
{
    if i < items.len() {
        assert(items.subrange(0, i + 1).drop_last() =~= items.subrange(0, i));
        lemma_zones_prefix_err(items, i + 1);
    } else {
        assert(items.subrange(0, i) =~= items);
    }
}

proof fn lemma_records_prefix_err(items: Seq<Json>, i: int)
    requires
        0 <= i <= items.len(),
        records_spec(items.subrange(0, i)) is Err,
    ensures
        records_spec(items) is Err,
    decreases items.len() - i,
{
    if i < items.len() {
        assert(items.subrange(0, i + 1).drop_last() =~= items.subrange(0, i));
        lemma_records_prefix_err(items, i + 1);
    } else {
        assert(items.subrange(0, i) =~= items);
    }
}

pub open spec fn record_view(r: Record) -> (u128, Seq<char>, RecordKind) {
    (r.id, r.domain@, r.kind)
}

fn record_exec(zone_id: u128, r: &Json) -> (res: Result<Option<Record>, DdnsUpdateError>)
    ensures
        record_entry(*r) matches Ok(v) ==> (match v {
            Some(t) => res matches Ok(Some(rec)) && record_view(rec) == t && rec.zone_id == zone_id,
            None => res matches Ok(None),
        }),
        record_entry(*r) is Err ==> res matches Err(DdnsUpdateError::Json(_)),
{
    let id = match as_str(r.get("id")) {
        Some(id) => id,
        None => return Err(DdnsUpdateError::Json(String::from_str("record has no id?"))),
    };
    let id = match parse_hex_id(id.as_str()) {
        Some(v) => v,
        None => return Err(DdnsUpdateError::Json(String::from_str("id is not a u128 number"))),
    };
    let name = match as_str(r.get("name")) {
        Some(n) => n,
        None => return Err(DdnsUpdateError::Json(String::from_str("record has no name?"))),
    };
    let ty = match as_str(r.get("type")) {
        Some(t) => t,
        None => return Err(DdnsUpdateError::Json(String::from_str("record has no type?"))),
    };
    match record_kind(ty.as_str()) {
        Some(kind) => Ok(Some(Record { zone_id, id, domain: name.clone(), kind })),
        None => Ok(None),
    }
}

/// The address records of zone `zone_id`'s record listing `v`.
pub fn records_from_listing(zone_id: u128, v: &Json) -> (r: Result<Vec<Record>, DdnsUpdateError>)
    ensures
        items_of(member(*v, "result"@)) is None ==> r matches Err(DdnsUpdateError::Json(_)),
        items_of(member(*v, "result"@)) matches Some(items) ==> (match records_spec(items) {
            Ok(z) => r matches Ok(w) && w@.map_values(|x: Record| record_view(x)) == z && forall|k: int|
                0 <= k < w@.len() ==> (#[trigger] w@[k]).zone_id == zone_id,
            Err(()) => r matches Err(DdnsUpdateError::Json(_)),
        }),
{
    let items = match as_array(v.get("result")) {
        Some(items) => items,
        None => return Err(DdnsUpdateError::Json(String::from_str("cloudflare returned 0 records"))),
    };
    let mut out: Vec<Record> = Vec::new();
    let mut i: usize = 0;
    assert(out@.map_values(|x: Record| record_view(x)) =~= Seq::<(u128, Seq<char>, RecordKind)>::empty());
    assert(items@.subrange(0, 0) =~= Seq::<Json>::empty());
    while i < items.len()
        invariant
            i <= items@.len(),
            items_of(member(*v, "result"@)) == Some(items@),
            records_spec(items@.subrange(0, i as int)) == Ok::<Seq<(u128, Seq<char>, RecordKind)>, ()>(
                out@.map_values(|x: Record| record_view(x)),
            ),
            forall|k: int| 0 <= k < out@.len() ==> (#[trigger] out@[k]).zone_id == zone_id,
        decreases items@.len() - i,
    {
        assert(items@.subrange(0, i as int + 1).drop_last() =~= items@.subrange(0, i as int));
        assert(items@.subrange(0, i as int + 1).last() == items@[i as int]);
        match record_exec(zone_id, &items[i]) {
            Ok(Some(rec)) => {
                let ghost before = out@;
                out.push(rec);
                assert(out@.map_values(|x: Record| record_view(x)) =~= before.map_values(|x: Record| record_view(x)).push(record_view(rec)));
            },
            Ok(None) => {},
            Err(e) => {
                proof {
                    assert(record_entry(items@[i as int]) is Err);
                    assert(records_spec(items@.subrange(0, i as int + 1)) is Err);
                    lemma_records_prefix_err(items@, i as int + 1);
                }
                return Err(e);
            },
        }
        i = i + 1;
    }
    assert(items@.subrange(0, items@.len() as int) =~= items@);
    Ok(out)
}

/// The code and message of the first error of an error answer.
pub open spec fn error_detail(body: Json) -> Option<(u64, Seq<char>)> {
    match items_of(member(body, "errors"@)) {
        Some(es) => if es.len() > 0 {
            match (u64_of(member(es[0], "code"@)), text_of(member(es[0], "message"@))) {
                (Some(c), Some(m)) => Some((c, m)),
                _ => None,
            }
        } else {
            None
        },
        None => None,
    }
}

/// The error an error answer (its JSON body, if it has one) stands for:
/// Cloudflare's first error code and message, or a malformed answer.
pub fn error_from_body(body: Option<&Json>) -> (r: DdnsUpdateError)
    ensures
        (match body {
            Some(b) => error_detail(*b),
            None => None,
        }) matches Some((c, m)) ==> (r matches DdnsUpdateError::Cloudflare(rc, rm) && rc == (c % 0x1_0000_0000) as u32 && rm@ == m),
        (match body {
            Some(b) => error_detail(*b),
            None => None,
        }) is None ==> r matches DdnsUpdateError::Json(_),
{
    let malformed = DdnsUpdateError::Json(String::from_str("unexpected error message structure"));
    let b = match body {
        Some(b) => b,
        None => return malformed,
    };
    let es = match as_array(b.get("errors")) {
        Some(es) => es,
        None => return malformed,
    };
    if es.len() == 0 {
        return malformed;
    }
    let first = &es[0];
    match (as_u64(first.get("code")), as_str(first.get("message"))) {
        (Some(c), Some(m)) => DdnsUpdateError::Cloudflare((c % 0x1_0000_0000) as u32, m.clone()),
        _ => malformed,
    }
}

/// A successful answer must say `"success": true`.
pub fn check_success(body: &Json) -> (r: Result<(), DdnsUpdateError>)
    ensures
        r is Ok <==> member(*body, "success"@) == Some(Json::Bool(true)),
        r is Err ==> r matches Err(DdnsUpdateError::Json(_)),
{
    match body.get("success") {
        Some(Json::Bool(true)) => Ok(()),
        _ => Err(DdnsUpdateError::Json(String::from_str("cloudflare returned success=false?"))),
    }
}

} // verus!
