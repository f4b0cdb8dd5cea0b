//! The engine shared by providers that speak the DynDNS v2 update protocol:
//! the suspension state, the update request's parameters, and the reading
//! of the provider's answer.

use vstd::prelude::*;
use vstd::utf8::encode_utf8;
use crate::addr::{IpAddress, ip_spec, ip_from_chars};
use crate::base64::{base64_of, base64_encode};
use crate::services::{
    DdnsUpdateError, Suspension, cooldown, cooldown_cycles, first_v4, first_v6, gate, opt_seq,
    pass_gate, find_v4, find_v6,
};
use crate::text::{chars_of, decimal_text, push_decimal, string_from_chars, has_prefix, split_spec, split_chars, starts_with, sub_chars, trim_chars, trim_spec};
use crate::util::FixedVec;

verus! {

/// Account and domains of a DynDNS-style provider.
#[derive(Clone, Debug, PartialEq, Eq)]
pub struct Config {
    pub username: String,
    pub password: String,
    pub domains: Vec<String>,
}

/// A DynDNS-style provider: its name (for messages), its update URL, the
/// account, and the suspension state.
#[derive(Clone, Debug, PartialEq, Eq)]
pub struct Service {
    pub name: &'static str,
    pub server: &'static str,
    pub config: Config,
    pub suspended: Suspension,
    /// The `Authorization` header value.
    pub auth: String,
}

/// The text of the `Authorization` header for `username` and `password`.
pub open spec fn basic_auth(username: Seq<char>, password: Seq<char>) -> Seq<char> {
    "Basic "@ + base64_of(encode_utf8(username + ":"@ + password))
}

/// What the provider confirmed in a `good` answer whose text after `good`
/// is `rest`: up to two comma-separated addresses; when it names none, all
/// that was submitted.
pub open spec fn confirmed_from_good(
    rest: Seq<char>,
    ipv4: Option<IpAddress>,
    ipv6: Option<IpAddress>,
) -> Seq<IpAddress> {
    let p = split_spec(rest, ',');
    let ip1 = ip_spec(trim_spec(p[0]));
    let ip2 = if p.len() > 1 {
        ip_spec(trim_spec(p[1]))
    } else {
        None
    };
    if ip1 is None && ip2 is None {
        opt_seq(ipv4) + opt_seq(ipv6)
    } else {
        opt_seq(ip1) + opt_seq(ip2)
    }
}

/// The explanation of a refusal, by the answer's known prefixes; else the
/// answer itself.
pub open spec fn refusal_message(body: Seq<char>) -> Seq<char> {
    if has_prefix(body, "!donator"@) {
        "Only credited users are allowed"@
    } else if has_prefix(body, "badauth"@) {
        "Bad authentication details were provided"@
    } else if has_prefix(body, "notfqdn"@) {
        "Domain must be fully-qualified"@
    } else if has_prefix(body, "nohost"@) {
        "Hostname does not exist in the user account"@
    } else if has_prefix(body, "abuse"@) {
        "Domain is blocked because of abuse"@
    } else if has_prefix(body, "numhost"@) {
        "Too many hosts are specified"@
    } else if has_prefix(body, "badagent"@) {
        "Bad user agent was provided. Configure your user_agent properly in the config file."@
    } else {
        body
    }
}

/// The explanation of an outage that pauses updates for `cycles` cycles.
pub open spec fn outage_message(cycles: u32) -> Seq<char> {
    if cycles == 0 {
        "The server is down"@
    } else {
        "The server is down, suspending for "@ + decimal_text(cycles as nat) + " cycles"@
    }
}

fn outage_text(cycles: u32) -> (r: String)
    ensures
        r@ == outage_message(cycles),
{
    if cycles == 0 {
        return String::from_str("The server is down");
    }
    let mut out = chars_of("The server is down, suspending for ");
    push_decimal(&mut out, cycles);
    let tail = chars_of(" cycles");
    let ghost start = out@;
    let mut i: usize = 0;
    while i < tail.len()
        invariant
            i <= tail@.len(),
            out@ == start + tail@.subrange(0, i as int),
        decreases tail@.len() - i,
    {
        out.push(tail[i]);
        assert(out@ =~= start + tail@.subrange(0, i as int + 1));
        i = i + 1;
    }
    assert(tail@.subrange(0, tail@.len() as int) =~= tail@);
    string_from_chars(&out)
}

pub open spec fn is_good(body: Seq<char>) -> bool {
    has_prefix(body, "good"@)
}

pub open spec fn is_nochg(body: Seq<char>) -> bool {
    !is_good(body) && has_prefix(body, "nochg"@)
}

pub open spec fn is_outage(body: Seq<char>) -> bool {
    !is_good(body) && !has_prefix(body, "nochg"@) && (has_prefix(body, "911"@) || has_prefix(
        body,
        "dnserr"@,
    ))
}

pub open spec fn is_refusal(body: Seq<char>) -> bool {
    !is_good(body) && !has_prefix(body, "nochg"@) && !has_prefix(body, "911"@) && !has_prefix(
        body,
        "dnserr"@,
    )
}

fn refusal_text(cs: &Vec<char>, body: &str) -> (r: String)
    requires
        cs@ == body@,
    ensures
        r@ == refusal_message(body@),
{
    if starts_with(cs, "!donator") {
        String::from_str("Only credited users are allowed")
    } else if starts_with(cs, "badauth") {
        String::from_str("Bad authentication details were provided")
    } else if starts_with(cs, "notfqdn") {
        String::from_str("Domain must be fully-qualified")
    } else if starts_with(cs, "nohost") {
        String::from_str("Hostname does not exist in the user account")
    } else if starts_with(cs, "abuse") {
        String::from_str("Domain is blocked because of abuse")
    } else if starts_with(cs, "numhost") {
        String::from_str("Too many hosts are specified")
    } else if starts_with(cs, "badagent") {
        String::from_str(
            "Bad user agent was provided. Configure your user_agent properly in the config file.",
        )
    } else {
        body.to_owned()
    }
}

/// With cycles `rate` seconds apart, an outage answer suspends the provider
/// for `1800 / rate` cycles: that many further attempts are refused
/// without contacting it, each taking one cycle off, and the attempt after
/// them contacts it again.
pub proof fn lemma_outage_backoff(rate: u32)
    requires
        rate > 0,
    ensures
        cooldown_cycles(Some(rate)) == 1800int / (rate as int),
        forall|k: nat| k < cooldown_cycles(Some(rate)) ==> !gate(
            #[trigger] crate::services::gate_iter(Suspension::Cycles(cooldown_cycles(Some(rate))), k),
        ).1 && gate(crate::services::gate_iter(Suspension::Cycles(cooldown_cycles(Some(rate))), k)).0
            == Suspension::Cycles((cooldown_cycles(Some(rate)) - k - 1) as u32),
        gate(
            crate::services::gate_iter(
                Suspension::Cycles(cooldown_cycles(Some(rate))),
                cooldown_cycles(Some(rate)) as nat,
            ),
        ).1,
{
    let n = cooldown_cycles(Some(rate));
    crate::services::lemma_suspension_counts_down(n);
}

impl Service {
    /// A provider called `name` at `server`, not suspended.
    pub fn from_config(name: &'static str, server: &'static str, config: Config) -> (r: Self)
        requires
            encode_utf8(config.username@ + ":"@ + config.password@).len() <= usize::MAX / 512,
        ensures
            r.name == name,
            r.server == server,
            r.config == config,
            r.suspended == Suspension::Cycles(0),
            r.auth@ == basic_auth(config.username@, config.password@),
    {
        let username_password = config.username.clone().concat(":").concat(config.password.as_str());
        let encoded = base64_encode(username_password.as_str().as_bytes());
        let auth = String::from_str("Basic ").concat(encoded.as_str());
        Service { name, server, config, suspended: Suspension::Cycles(0), auth }
    }

    /// Takes one update attempt through the suspension state: `Ok` when the
    /// provider may be contacted now.
    pub fn begin_update(&mut self) -> (r: Result<(), DdnsUpdateError>)
        ensures
            final(self).suspended == gate(old(self).suspended).0,
            r is Ok <==> gate(old(self).suspended).1,
            r is Err ==> r == Err::<(), DdnsUpdateError>(
                DdnsUpdateError::Suspended(final(self).suspended),
            ),
            final(self).name == old(self).name,
            final(self).server == old(self).server,
            final(self).config == old(self).config,
            final(self).auth == old(self).auth,
    {
        pass_gate(&mut self.suspended)
    }

    /// Reads the provider's answer `body` to an update that submitted `ips`,
    /// with cycles `update_rate` seconds apart. `good` confirms addresses,
    /// `nochg` confirms none; `911` and `dnserr` pause updates for half an
    /// hour of cycles; any other answer suspends the provider for the rest
    /// of the run.
    pub fn handle_response(&mut self, body: &str, ips: &[IpAddress], update_rate: Option<u32>) -> (r:
        Result<FixedVec<IpAddress, 2>, DdnsUpdateError>)
        ensures
            final(self).name == old(self).name,
            final(self).server == old(self).server,
            final(self).config == old(self).config,
            final(self).auth == old(self).auth,
            is_good(body@) ==> final(self).suspended == old(self).suspended && (r matches Ok(v)
                && v.wf() && v.view() == confirmed_from_good(
                body@.subrange("good"@.len() as int, body@.len() as int),
                first_v4(ips@),
                first_v6(ips@),
            )),
            is_nochg(body@) ==> final(self).suspended == old(self).suspended && (r matches Ok(v)
                && v.view().len() == 0),
            is_outage(body@) ==> final(self).suspended == Suspension::Cycles(
                cooldown_cycles(update_rate),
            ) && (r matches Err(DdnsUpdateError::DynDns(n, m)) && n == old(self).name && m@
                == outage_message(cooldown_cycles(update_rate))),
            is_refusal(body@) ==> final(self).suspended == Suspension::Indefinite && (r matches Err(
                DdnsUpdateError::DynDns(n, m),
            ) && n == old(self).name && m@ == refusal_message(body@)),
    {
        let cs = chars_of(body);
        if starts_with(&cs, "good") {
            let ipv4 = find_v4(ips);
            let ipv6 = find_v6(ips);
            proof {
                reveal_strlit("good");
            }
            let rest = sub_chars(&cs, 4, cs.len());
            let pieces = split_chars(&rest, ',');
            proof {
                crate::text::lemma_split_nonempty(rest@, ',');
            }
            let mut ip1 = ip_from_chars(&trim_chars(&pieces[0]));
            let mut ip2 = if pieces.len() > 1 {
                ip_from_chars(&trim_chars(&pieces[1]))
            } else {
                None
            };
            if ip1.is_none() && ip2.is_none() {
                ip1 = ipv4;
                ip2 = ipv6;
            }
            let mut result: FixedVec<IpAddress, 2> = FixedVec::new();
            if let Some(a) = ip1 {
                result.push(a);
            }
            if let Some(a) = ip2 {
                result.push(a);
            }
            proof {
                assert(result.view() =~= opt_seq(ip1) + opt_seq(ip2));
            }
            Ok(result)
        } else if starts_with(&cs, "nochg") {
            Ok(FixedVec::new())
        } else if starts_with(&cs, "911") || starts_with(&cs, "dnserr") {
            let cycles = cooldown(update_rate);
            self.suspended = Suspension::Cycles(cycles);
            Err(DdnsUpdateError::DynDns(self.name, outage_text(cycles)))
        } else {
            self.suspended = Suspension::Indefinite;
            Err(DdnsUpdateError::DynDns(self.name, refusal_text(&cs, body)))
        }
    }
}

} // verus!
