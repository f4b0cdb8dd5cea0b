//! Linode: records are found once through the domain and record listings
//! (record names are relative to their domain), kept for the run, and each
//! matching record is set to the new address.

use vstd::prelude::*;
use crate::addr::IpAddress;
use crate::json::{Json, as_array, as_str, items_of, member, text_of};
use crate::services::{DdnsUpdateError, RecordKind, address_for, is_listed, listed, record_kind, record_kind_spec};

verus! {

#[derive(Clone, Debug, PartialEq, Eq)]
pub struct Config {
    pub token: String,
    pub domains: Vec<String>,
    /// The time to live in seconds.
    pub ttl: u32,
}

/// A domain of the account.
#[derive(Clone, Debug, PartialEq, Eq)]
pub struct Domain {
    pub id: u64,
    pub name: String,
}

/// A record of a domain, named by its full name.
#[derive(Clone, Debug, PartialEq, Eq)]
pub struct Record {
    pub id: u64,
    pub domain_id: u64,
    pub name: String,
    pub kind: RecordKind,
}

#[derive(Clone, Debug, PartialEq, Eq)]
pub struct Service {
    pub config: Config,
    /// The records to keep current, found on the first update.
    pub cached_records: Vec<Record>,
}

/// The full name of record `name` in domain `domain`.
pub open spec fn fqdn(name: Seq<char>, domain: Seq<char>) -> Seq<char> {
    if name.len() == 0 {
        domain
    } else {
        name + "."@ + domain
    }
}

/// What is kept of one record of a domain's listing: the record, under its
/// full name, when it carries an address; nothing for other types.
pub fn record_from_listing(domain: &Domain, id: u64, name: &str, ty: &str) -> (r: Option<Record>)
    ensures
        record_kind_spec(ty@) is None ==> r is None,
        record_kind_spec(ty@) is Some ==> (r matches Some(rec) && rec.id == id && rec.domain_id == domain.id
            && rec.name@ == fqdn(name@, domain.name@) && rec.kind == record_kind_spec(ty@)->0),
{
    let kind = match record_kind(ty) {
        Some(k) => k,
        None => return None,
    };
    let full = if name.is_empty() {
        domain.name.clone()
    } else {
        String::from_str(name).concat(".").concat(domain.name.as_str())
    };
    Some(Record { id, domain_id: domain.id, name: full, kind })
}

impl Service {
    /// A service for `config`, its token made a bearer credential.
    pub fn from(config: Config) -> (r: Self)
        ensures
            r.config.token@ == "Bearer "@ + config.token@,
            r.config.domains == config.domains,
            r.config.ttl == config.ttl,
            r.cached_records@.len() == 0,
    {
        let mut config = config;
        config.token = String::from_str("Bearer ").concat(config.token.as_str());
        Service { config, cached_records: Vec::new() }
    }

    /// Keeps, of the records found, those of the configured domains, in
    /// order.
    pub fn cache_records(&mut self, found: Vec<Record>)
        ensures
            final(self).config == old(self).config,
            final(self).cached_records@ == old(self).cached_records@ + kept_records(
                old(self).config.domains@,
                found@,
            ),
    {
        let ghost start = self.cached_records@;
        let ghost all = found@;
        let n = found.len();
        let mut rest = found;
        let mut k: usize = 0;
        while rest.len() > 0
            invariant
                k <= all.len(),
                rest@ == all.subrange(k as int, all.len() as int),
                all.len() == n,
                self.config == old(self).config,
                start == old(self).cached_records@,
                self.cached_records@ == start + kept_records(self.config.domains@, all.subrange(0, k as int)),
            decreases rest@.len(),
        {
            assert(rest@.len() == all.len() - k);
        let r = rest.remove(0);
            assert(all.subrange(0, k as int + 1).drop_last() =~= all.subrange(0, k as int));
            assert(all[k as int] == r);
            if is_listed(&self.config.domains, &r.name) {
                self.cached_records.push(r);
            }
            k = k + 1;
            assert(rest@ =~= all.subrange(k as int, all.len() as int));
            assert(self.cached_records@ =~= start + kept_records(self.config.domains@, all.subrange(0, k as int)));
        }
        assert(all.subrange(0, k as int) =~= all);
    }

    /// The records to set, by index into the kept records, and the address
    /// each gets: every `A` record gets `ipv4`, every `AAAA` record `ipv6`.
    pub fn planned_puts(&self, ipv4: Option<IpAddress>, ipv6: Option<IpAddress>) -> (r: Vec<(usize, IpAddress)>)
        ensures
            r@ == puts_for(self.cached_records@, ipv4, ipv6),
    {
        let mut out: Vec<(usize, IpAddress)> = Vec::new();
        let mut i: usize = 0;
        while i < self.cached_records.len()
            invariant
                i <= self.cached_records@.len(),
                out@ == puts_for(self.cached_records@.subrange(0, i as int), ipv4, ipv6),
            decreases self.cached_records@.len() - i,
        {
            assert(self.cached_records@.subrange(0, i as int + 1).drop_last() =~= self.cached_records@.subrange(0, i as int));
            let a = match self.cached_records[i].kind {
                RecordKind::A => ipv4,
                RecordKind::Aaaa => ipv6,
            };
            if let Some(addr) = a {
                out.push((i, addr));
            }
            i = i + 1;
        }
        assert(self.cached_records@.subrange(0, self.cached_records@.len() as int) =~= self.cached_records@);
        out
    }
}

/// The records of `found` whose domain is one of `domains`, in order.
pub open spec fn kept_records(domains: Seq<String>, found: Seq<Record>) -> Seq<Record>
    decreases found.len(),
{
    if found.len() == 0 {
        Seq::empty()
    } else if listed(domains, found.last().name@) {
        kept_records(domains, found.drop_last()).push(found.last())
    } else {
        kept_records(domains, found.drop_last())
    }
}

/// For each record, by index, the address it is set to, if any.
pub open spec fn puts_for(rs: Seq<Record>, ipv4: Option<IpAddress>, ipv6: Option<IpAddress>) -> Seq<(usize, IpAddress)>
    decreases rs.len(),
{
    if rs.len() == 0 {
        Seq::empty()
    } else {
        match address_for(rs.last().kind, ipv4, ipv6) {
            Some(a) => puts_for(rs.drop_last(), ipv4, ipv6).push(((rs.len() - 1) as usize, a)),
            None => puts_for(rs.drop_last(), ipv4, ipv6),
        }
    }
}


/// What one domain of the listing gives: its id (an unsigned integer) and
/// name; an error when either is missing.
pub open spec fn domain_entry(d: Json) -> Result<(u64, Seq<char>), ()> {
    match (member(d, "id"@), text_of(member(d, "domain"@))) {
        (Some(Json::Number(Some(id))), Some(name)) => Ok((id, name)),
        _ => Err(()),
    }
}

/// The domains of a listing, in order; the first bad one fails.
pub open spec fn domains_spec(items: Seq<Json>) -> Result<Seq<(u64, Seq<char>)>, ()>
    decreases items.len(),
{
    if items.len() == 0 {
        Ok(Seq::empty())
    } else {
        match (domains_spec(items.drop_last()), domain_entry(items.last())) {
            (Ok(z), Ok(d)) => Ok(z.push(d)),
            _ => Err(()),
        }
    }
}

/// What one record of a domain's listing gives: its id, name and type;
/// an error when one is missing.
pub open spec fn record_entry(r: Json) -> Result<(u64, Seq<char>, Seq<char>), ()> {
    match (member(r, "id"@), text_of(member(r, "name"@)), text_of(member(r, "type"@))) {
        (Some(Json::Number(Some(id))), Some(name), Some(ty)) => Ok((id, name, ty)),
        _ => Err(()),
    }
}

/// The address records of a domain's listing, in order, under their full
/// names; the first bad record fails.
pub open spec fn records_spec(domain: Domain, items: Seq<Json>) -> Result<Seq<(u64, Seq<char>, RecordKind)>, ()>
    decreases items.len(),
{
    if items.len() == 0 {
        Ok(Seq::empty())
    } else {
        match (records_spec(domain, items.drop_last()), record_entry(items.last())) {
            (Ok(z), Ok((id, name, ty))) => match record_kind_spec(ty) {
                Some(k) => Ok(z.push((id, fqdn(name, domain.name@), k))),
                None => Ok(z),
            },
            _ => Err(()),
        }
    }
}

pub open spec fn domain_view(d: Domain) -> (u64, Seq<char>) {
    (d.id, d.name@)
}

pub open spec fn record_view(r: Record) -> (u64, Seq<char>, RecordKind) {
    (r.id, r.name@, r.kind)
}

fn number_of(j: Option<&Json>, missing: &str, not_u64: &str) -> (r: Result<u64, DdnsUpdateError>)
    ensures
        (match j { Some(x) => Some(*x), None => None }) matches Some(Json::Number(Some(n))) ==> r == Ok::<u64, DdnsUpdateError>(n),
        !((match j { Some(x) => Some(*x), None => None }) matches Some(Json::Number(Some(_)))) ==> r matches Err(DdnsUpdateError::Json(_)),
{
    match j {
        Some(Json::Number(Some(n))) => Ok(*n),
        Some(Json::Number(None)) => Err(DdnsUpdateError::Json(String::from_str(not_u64))),
        _ => Err(DdnsUpdateError::Json(String::from_str(missing))),
    }
}

/// The domains of the domain listing `v`.
pub fn domains_from_listing(v: &Json) -> (r: Result<Vec<Domain>, DdnsUpdateError>)
    ensures
        items_of(member(*v, "data"@)) is None ==> r matches Err(DdnsUpdateError::Json(_)),
        items_of(member(*v, "data"@)) matches Some(items) ==> (match domains_spec(items) {
            Ok(z) => r matches Ok(w) && w@.map_values(|d: Domain| domain_view(d)) == z,
            Err(()) => r matches Err(DdnsUpdateError::Json(_)),
        }),
{
    let items = match as_array(v.get("data")) {
        Some(items) => items,
        None => return Err(DdnsUpdateError::Json(String::from_str("linode returned 0 domains"))),
    };
    let mut out: Vec<Domain> = Vec::new();
    let mut i: usize = 0;
    assert(out@.map_values(|d: Domain| domain_view(d)) =~= Seq::<(u64, Seq<char>)>::empty());
    assert(items@.subrange(0, 0) =~= Seq::<Json>::empty());
    while i < items.len()
        invariant
            i <= items@.len(),
            items_of(member(*v, "data"@)) == Some(items@),
            domains_spec(items@.subrange(0, i as int)) == Ok::<Seq<(u64, Seq<char>)>, ()>(
                out@.map_values(|d: Domain| domain_view(d)),
            ),
        decreases items@.len() - i,
    {
        assert(items@.subrange(0, i as int + 1).drop_last() =~= items@.subrange(0, i as int));
        assert(items@.subrange(0, i as int + 1).last() == items@[i as int]);
        let item = &items[i];
        let id = match number_of(item.get("id"), "domain has no id?", "cannot convert domain ID to u64") {
            Ok(id) => id,
            Err(e) => {
                proof {
                    lemma_domains_prefix_err(items@, i as int + 1);
                }
                return Err(e);
            },
        };
        let name = match as_str(item.get("domain")) {
            Some(n) => n,
            None => {
                proof {
                    lemma_domains_prefix_err(items@, i as int + 1);
                }
                return Err(DdnsUpdateError::Json(String::from_str("domain has no domain name?")));
            },
        };
        let ghost before = out@;
        let d = Domain { id, name: name.clone() };
        out.push(d);
        assert(out@.map_values(|d: Domain| domain_view(d)) =~= before.map_values(|d: Domain| domain_view(d)).push(domain_view(d)));
        i = i + 1;
    }
    assert(items@.subrange(0, items@.len() as int) =~= items@);
    Ok(out)
}

proof fn lemma_domains_prefix_err(items: Seq<Json>, i: int)
    requires
        0 <= i <= items.len(),
        domains_spec(items.subrange(0, i)) is Err,
    ensures
        domains_spec(items) is Err,
    decreases items.len() - i,
{
    if i < items.len() {
        assert(items.subrange(0, i + 1).drop_last() =~= items.subrange(0, i));
        lemma_domains_prefix_err(items, i + 1);
    } else {
        assert(items.subrange(0, i) =~= items);
    }
}

proof fn lemma_records_prefix_err(domain: Domain, items: Seq<Json>, i: int)
    requires
        0 <= i <= items.len(),
        records_spec(domain, items.subrange(0, i)) is Err,
    ensures
        records_spec(domain, items) is Err,
    decreases items.len() - i,
{
    if i < items.len() {
        assert(items.subrange(0, i + 1).drop_last() =~= items.subrange(0, i));
        lemma_records_prefix_err(domain, items, i + 1);
    } else {
        assert(items.subrange(0, i) =~= items);
    }
}

/// The address records of `domain`'s record listing `v`.
pub fn records_from_listing(domain: &Domain, v: &Json) -> (r: Result<Vec<Record>, DdnsUpdateError>)
    ensures
        items_of(member(*v, "data"@)) is None ==> r matches Err(DdnsUpdateError::Json(_)),
        items_of(member(*v, "data"@)) matches Some(items) ==> (match records_spec(*domain, items) {
            Ok(z) => r matches Ok(w) && w@.map_values(|x: Record| record_view(x)) == z && forall|k: int|
                0 <= k < w@.len() ==> (#[trigger] w@[k]).domain_id == domain.id,
            Err(()) => r matches Err(DdnsUpdateError::Json(_)),
        }),
{
    let items = match as_array(v.get("data")) {
        Some(items) => items,
        None => return Err(DdnsUpdateError::Json(String::from_str("linode returned 0 records"))),
    };
    let mut out: Vec<Record> = Vec::new();
    let mut i: usize = 0;
    assert(out@.map_values(|x: Record| record_view(x)) =~= Seq::<(u64, Seq<char>, RecordKind)>::empty());
    assert(items@.subrange(0, 0) =~= Seq::<Json>::empty());
    while i < items.len()
        invariant
            i <= items@.len(),
            items_of(member(*v, "data"@)) == Some(items@),
            records_spec(*domain, items@.subrange(0, i as int)) == Ok::<Seq<(u64, Seq<char>, RecordKind)>, ()>(
                out@.map_values(|x: Record| record_view(x)),
            ),
            forall|k: int| 0 <= k < out@.len() ==> (#[trigger] out@[k]).domain_id == domain.id,
        decreases items@.len() - i,
    {
        assert(items@.subrange(0, i as int + 1).drop_last() =~= items@.subrange(0, i as int));
        assert(items@.subrange(0, i as int + 1).last() == items@[i as int]);
        let item = &items[i];
        let id = match number_of(item.get("id"), "record has no id?", "id is not a u64 number") {
            Ok(id) => id,
            Err(e) => {
                proof {
                    lemma_records_prefix_err(*domain, items@, i as int + 1);
                }
                return Err(e);
            },
        };
        let (name, ty) = match (as_str(item.get("name")), as_str(item.get("type"))) {
            (Some(n), Some(t)) => (n, t),
            _ => {
                proof {
                    lemma_records_prefix_err(*domain, items@, i as int + 1);
                }
                return Err(DdnsUpdateError::Json(String::from_str("record has no name or type?")));
            },
        };
        match record_from_listing(domain, id, name.as_str(), ty.as_str()) {
            Some(rec) => {
                let ghost before = out@;
                out.push(rec);
                assert(out@.map_values(|x: Record| record_view(x)) =~= before.map_values(|x: Record| record_view(x)).push(record_view(rec)));
            },
            None => {},
        }
        i = i + 1;
    }
    assert(items@.subrange(0, items@.len() as int) =~= items@);
    Ok(out)
}

/// The reason and field of the first error of an error answer.
pub open spec fn error_detail(body: Json) -> Option<(Seq<char>, Seq<char>)> {
    match items_of(member(body, "errors"@)) {
        Some(es) => if es.len() > 0 {
            match text_of(member(es[0], "reason"@)) {
                Some(reason) => Some((reason, match text_of(member(es[0], "field"@)) {
                    Some(f) => f,
                    None => Seq::empty(),
                })),
                None => None,
            }
        } else {
            None
        },
        None => None,
    }
}

/// The error an error answer (its JSON body, if it has one) stands for:
/// Linode's first error reason, naming the field when there is one, or a
/// malformed answer.
pub fn error_from_body(body: Option<&Json>) -> (r: DdnsUpdateError)
    ensures
        (match body {
            Some(b) => error_detail(*b),
            None => None,
        }) matches Some((reason, field)) ==> (r matches DdnsUpdateError::Linode(m) && m@ == (if field.len() == 0 {
            reason
        } else {
            reason + " (field = "@ + field + ")"@
        })),
        (match body {
            Some(b) => error_detail(*b),
            None => None,
        }) is None ==> r matches DdnsUpdateError::Json(_),
{
    let malformed = DdnsUpdateError::Json(String::from_str("unexpected error message structure"));
    let b = match body {
        Some(b) => b,
        None => return malformed,
    };
    let es = match as_array(b.get("errors")) {
        Some(es) => es,
        None => return malformed,
    };
    if es.len() == 0 {
        return malformed;
    }
    let first = &es[0];
    let reason = match as_str(first.get("reason")) {
        Some(r) => r,
        None => return malformed,
    };
    match as_str(first.get("field")) {
        Some(f) => if f.as_str().is_empty() {
            DdnsUpdateError::Linode(reason.clone())
        } else {
            DdnsUpdateError::Linode(reason.clone().concat(" (field = ").concat(f.as_str()).concat(")"))
        },
        None => DdnsUpdateError::Linode(reason.clone()),
    }
}

} // verus!
