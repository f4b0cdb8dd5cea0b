//! The update capability shared by all providers: the error vocabulary,
//! the suspension state, and each provider's rules.

pub mod cloudflare;
pub mod dnsomatic;
pub mod duckdns;
pub mod dummy;
pub mod linode;
pub mod noip;
pub mod porkbun;
pub mod router_1;
pub mod shared_dyndns;

use vstd::prelude::*;
use crate::addr::IpAddress;
use crate::util::FixedVec;

verus! {

/// The first IPv4 address of `s`.
pub open spec fn first_v4(s: Seq<IpAddress>) -> Option<IpAddress>
    decreases s.len(),
{
    if s.len() == 0 {
        None
    } else if s[0] is V4 {
        Some(s[0])
    } else {
        first_v4(s.drop_first())
    }
}

/// The first IPv6 address of `s`.
pub open spec fn first_v6(s: Seq<IpAddress>) -> Option<IpAddress>
    decreases s.len(),
{
    if s.len() == 0 {
        None
    } else if s[0] is V6 {
        Some(s[0])
    } else {
        first_v6(s.drop_first())
    }
}

/// The addresses that an option holds.
pub open spec fn opt_seq(a: Option<IpAddress>) -> Seq<IpAddress> {
    match a {
        Some(x) => seq![x],
        None => Seq::empty(),
    }
}

/// The first IPv4 address among `ips`.
pub fn find_v4(ips: &[IpAddress]) -> (r: Option<IpAddress>)
    ensures
        r == first_v4(ips@),
{
    let mut i: usize = 0;
    assert(ips@.subrange(0, ips@.len() as int) =~= ips@);
    while i < ips.len()
        invariant
            i <= ips@.len(),
            first_v4(ips@) == first_v4(ips@.subrange(i as int, ips@.len() as int)),
        decreases ips@.len() - i,
    {
        assert(ips@.subrange(i as int, ips@.len() as int).drop_first() =~= ips@.subrange(
            i as int + 1,
            ips@.len() as int,
        ));
        if ips[i].is_ipv4() {
            return Some(ips[i]);
        }
        i = i + 1;
    }
    None
}

/// The first IPv6 address among `ips`.
pub fn find_v6(ips: &[IpAddress]) -> (r: Option<IpAddress>)
    ensures
        r == first_v6(ips@),
{
    let mut i: usize = 0;
    assert(ips@.subrange(0, ips@.len() as int) =~= ips@);
    while i < ips.len()
        invariant
            i <= ips@.len(),
            first_v6(ips@) == first_v6(ips@.subrange(i as int, ips@.len() as int)),
        decreases ips@.len() - i,
    {
        assert(ips@.subrange(i as int, ips@.len() as int).drop_first() =~= ips@.subrange(
            i as int + 1,
            ips@.len() as int,
        ));
        if ips[i].is_ipv6() {
            return Some(ips[i]);
        }
        i = i + 1;
    }
    None
}

/// The submitted addresses, IPv4 first: the confirmed set of a provider
/// that applies everything it is sent.
pub fn submitted(ips: &[IpAddress]) -> (r: FixedVec<IpAddress, 2>)
    ensures
        r.wf(),
        r.view() == opt_seq(first_v4(ips@)) + opt_seq(first_v6(ips@)),
{
    let mut out: FixedVec<IpAddress, 2> = FixedVec::new();
    if let Some(a) = find_v4(ips) {
        out.push(a);
    }
    if let Some(a) = find_v6(ips) {
        out.push(a);
    }
    proof {
        assert(out.view() =~= opt_seq(first_v4(ips@)) + opt_seq(first_v6(ips@)));
    }
    out
}

/// The type of a DNS record that carries an address.
#[derive(Clone, Copy, Debug, PartialEq, Eq, Structural, Hash)]
pub enum RecordKind {
    A,
    Aaaa,
}

/// The kind of record a type name denotes, if it carries an address.
pub open spec fn record_kind_spec(ty: Seq<char>) -> Option<RecordKind> {
    if ty == "A"@ {
        Some(RecordKind::A)
    } else if ty == "AAAA"@ {
        Some(RecordKind::Aaaa)
    } else {
        None
    }
}

/// The kind of record a type name denotes, if it carries an address.
pub fn record_kind(ty: &str) -> (r: Option<RecordKind>)
    ensures
        r == record_kind_spec(ty@),
{
    let t = String::from_str(ty);
    if t == String::from_str("A") {
        Some(RecordKind::A)
    } else if t == String::from_str("AAAA") {
        Some(RecordKind::Aaaa)
    } else {
        None
    }
}

/// The address a record of kind `kind` is set to: the IPv4 address for
/// `A`, the IPv6 address for `AAAA`.
pub open spec fn address_for(kind: RecordKind, ipv4: Option<IpAddress>, ipv6: Option<IpAddress>) -> Option<IpAddress> {
    match kind {
        RecordKind::A => ipv4,
        RecordKind::Aaaa => ipv6,
    }
}

/// Whether `name` is one of `domains`.
pub open spec fn listed(domains: Seq<String>, name: Seq<char>) -> bool {
    exists|i: int| 0 <= i < domains.len() && #[trigger] domains[i]@ == name
}

pub fn is_listed(domains: &Vec<String>, name: &String) -> (r: bool)
    ensures
        r == listed(domains@, name@),
{
    let mut i: usize = 0;
    while i < domains.len()
        invariant
            i <= domains@.len(),
            forall|j: int| 0 <= j < i ==> #[trigger] domains@[j]@ != name@,
        decreases domains@.len() - i,
    {
        if domains[i] == *name {
            return true;
        }
        i = i + 1;
    }
    false
}

/// Whether a provider may be contacted.
#[derive(Clone, Copy, Debug, PartialEq, Eq, Structural, Hash)]
pub enum Suspension {
    /// Skip this many more update attempts; zero means proceed.
    Cycles(u32),
    /// Never contact the provider again in this run.
    Indefinite,
}

/// Why an update did not go through.
#[derive(Clone, Debug, PartialEq, Eq)]
pub enum DdnsUpdateError {
    /// Cloudflare answered with an error code and message.
    Cloudflare(u32, String),
    /// A response that should be JSON of a known shape is not.
    Json(String),
    /// DuckDNS refused the request.
    DuckDns,
    /// A DynDNS-style provider (named) refused the request or is down.
    DynDns(&'static str, String),
    /// Linode answered with an error.
    Linode(String),
    /// No-IP answered with an error.
    NoIp(String),
    /// Porkbun answered with an error.
    Porkbun(String),
    /// The router answered with an HTTP status and message.
    Router1(u16, String),
    /// The provider is suspended; no request was made.
    Suspended(Suspension),
    /// The request did not reach the provider.
    TransportError(String),
}

/// One step of the suspension state before an update: the next state, and
/// whether the provider may be contacted.
pub open spec fn gate(s: Suspension) -> (Suspension, bool) {
    match s {
        Suspension::Cycles(n) => if n > 0 {
            (Suspension::Cycles((n - 1) as u32), false)
        } else {
            (Suspension::Cycles(0), true)
        },
        Suspension::Indefinite => (Suspension::Indefinite, false),
    }
}

/// The suspension state after `k` update attempts from `s`.
pub open spec fn gate_iter(s: Suspension, k: nat) -> Suspension
    decreases k,
{
    if k == 0 {
        s
    } else {
        gate(gate_iter(s, (k - 1) as nat)).0
    }
}

/// Takes one update attempt through the suspension state: `Ok` when the
/// provider may be contacted, otherwise the refusal with the state left.
pub fn pass_gate(s: &mut Suspension) -> (r: Result<(), DdnsUpdateError>)
    ensures
        *final(s) == gate(*old(s)).0,
        r is Ok <==> gate(*old(s)).1,
        r is Err ==> r == Err::<(), DdnsUpdateError>(DdnsUpdateError::Suspended(*final(s))),
{
    match *s {
        Suspension::Cycles(n) => {
            if n > 0 {
                *s = Suspension::Cycles(n - 1);
                Err(DdnsUpdateError::Suspended(*s))
            } else {
                Ok(())
            }
        },
        Suspension::Indefinite => Err(DdnsUpdateError::Suspended(Suspension::Indefinite)),
    }
}

/// The pause after a provider outage: half an hour in cycles of
/// `update_rate` seconds, or none when no further cycle will run.
pub open spec fn cooldown_cycles(update_rate: Option<u32>) -> u32 {
    match update_rate {
        Some(r) => if r > 0 {
            (1800int / (r as int)) as u32
        } else {
            0
        },
        None => 0,
    }
}

pub fn cooldown(update_rate: Option<u32>) -> (r: u32)
    ensures
        r == cooldown_cycles(update_rate),
{
    match update_rate {
        Some(r) => if r > 0 {
            1800 / r
        } else {
            0
        },
        None => 0,
    }
}

/// After an outage with `Cycles(n)`, the next `n` attempts are refused,
/// each taking one cycle off, and the attempt after them proceeds.
pub proof fn lemma_suspension_counts_down(n: u32)
    ensures
        forall|k: nat| k < n ==> #[trigger] gate_iter(Suspension::Cycles(n), k) == Suspension::Cycles(
            (n - k) as u32,
        ) && !gate(gate_iter(Suspension::Cycles(n), k)).1,
        gate_iter(Suspension::Cycles(n), n as nat) == Suspension::Cycles(0),
        gate(gate_iter(Suspension::Cycles(n), n as nat)).1,
{
    assert forall|k: nat| k <= n implies #[trigger] gate_iter(Suspension::Cycles(n), k)
        == Suspension::Cycles((n - k) as u32) by {
        lemma_gate_iter(n, k);
    }
}

proof fn lemma_gate_iter(n: u32, k: nat)
    requires
        k <= n,
    ensures
        gate_iter(Suspension::Cycles(n), k) == Suspension::Cycles((n - k) as u32),
    decreases k,
{
    if k > 0 {
        lemma_gate_iter(n, (k - 1) as nat);
    }
}

/// An indefinite suspension refuses every attempt.
pub proof fn lemma_indefinite_refuses_all(k: nat)
    ensures
        gate_iter(Suspension::Indefinite, k) == Suspension::Indefinite,
        !gate(gate_iter(Suspension::Indefinite, k)).1,
    decreases k,
{
    if k > 0 {
        lemma_indefinite_refuses_all((k - 1) as nat);
    }
}

} // verus!
