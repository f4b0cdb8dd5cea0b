//! Logical addresses: how each is obtained, the last address obtained, and
//! whether it changed in the last refresh.
//!
//! Obtaining an address (running a command, listing an interface, fetching
//! a URL) happens outside; what is read from that outcome, and how the
//! cached address and the dirty bit follow it, is decided here.

use vstd::prelude::*;
use vstd::utf8::{decode_utf8, valid_utf8};
use crate::addr::{IpAddress, ipv4_spec, ipv6_spec};
use crate::config::{IpConfig, IpConfigMethod, IpVersion};
use crate::netmask::{NetworkParseErr, NetworkV4, NetworkV6, network_v4_spec, network_v6_spec, in_range_v4, in_range_v6, prefix_mask_v4, prefix_mask_v6};
use crate::text::{chars_of, trim_chars, trim_spec, utf8_to_string};

verus! {

/// A logical address's source, checked and ready to use.
#[derive(Clone, Debug, PartialEq, Eq)]
pub enum IpService {
    ExecV4 { command: String },
    HttpV4 { url: String, regex: Option<String> },
    InterfaceV4 { iface: String, matches: NetworkV4 },
    ExecV6 { command: String },
    HttpV6 { url: String, regex: Option<String> },
    InterfaceV6 { iface: String, matches: NetworkV6 },
}

/// Why an address could not be obtained, or a source is misconfigured.
#[derive(Clone, Debug, PartialEq, Eq)]
pub enum DynamicIpError {
    /// The command failed or did not print an address.
    ExecutionFailure(String),
    /// No address of the interface passed the filters.
    InterfaceFailure,
    /// The fetch failed or its body held no address.
    HttpFailure(String),
    /// The configured pattern does not compile.
    InvalidRegex(String),
    /// The configured network does not parse.
    InvalidNetwork(NetworkParseErr),
}

/// A logical address: its source, its last known address, and whether the
/// last refresh changed it.
#[derive(Clone, Debug, PartialEq, Eq)]
pub struct DynamicIp {
    pub address: Option<IpAddress>,
    pub dirty: bool,
    pub service: IpService,
}

/// Whether `p` compiles as a regular expression.
pub uninterp spec fn pattern_valid(p: Seq<char>) -> bool;

/// The text of the first capture group of the leftmost match of pattern `p`
/// in `text`, if it matches and the group took part.
pub uninterp spec fn first_capture(p: Seq<char>, text: Seq<char>) -> Option<Seq<char>>;

/// Relies on regex::Regex::new: whether a pattern compiles depends on the
/// pattern alone; on failure the error's text is returned.
#[verifier::external_body]
fn pattern_error(p: &str) -> (r: Option<String>)
    ensures
        r is None <==> pattern_valid(p@),
{
    match regex::Regex::new(p) {
        Ok(_) => None,
        Err(e) => Some(e.to_string()),
    }
}

/// Relies on regex::Regex::captures (with Regex::new to build the pattern):
/// the first capture group of the leftmost match, which depends on the
/// pattern and the text alone.
#[verifier::external_body]
fn capture_group(p: &str, text: &str) -> (r: Option<String>)
    ensures
        !pattern_valid(p@) ==> r is None,
        pattern_valid(p@) ==> (match first_capture(p@, text@) {
            Some(g) => r matches Some(s) && s@ == g,
            None => r is None,
        }),
{
    let re = match regex::Regex::new(p) {
        Ok(re) => re,
        Err(_) => return None,
    };
    let group = re.captures(text)?.get(1)?;
    Some(group.as_str().to_owned())
}

/// The network that an interface source filters by: anything when the
/// setting is empty, else the trimmed setting.
pub open spec fn interface_network_v4(matches: Seq<char>) -> Result<NetworkV4, NetworkParseErr> {
    if matches.len() == 0 {
        Ok(NetworkV4 { address: 0, mask: prefix_mask_v4(0) })
    } else {
        network_v4_spec(trim_spec(matches))
    }
}

/// The network that an interface source filters by: anything when the
/// setting is empty, else the trimmed setting.
pub open spec fn interface_network_v6(matches: Seq<char>) -> Result<NetworkV6, NetworkParseErr> {
    if matches.len() == 0 {
        Ok(NetworkV6 { address: 0, mask: prefix_mask_v6(0) })
    } else {
        network_v6_spec(trim_spec(matches))
    }
}

/// `r` is the source that configuration `c` describes, or the reason it
/// describes none.
pub open spec fn service_from(c: IpConfig, r: Result<IpService, DynamicIpError>) -> bool {
    match (c.version, c.method) {
        (IpVersion::V4, IpConfigMethod::Exec { command }) => r matches Ok(IpService::ExecV4 { command: x }) && x@ == command@,
        (IpVersion::V6, IpConfigMethod::Exec { command }) => r matches Ok(IpService::ExecV6 { command: x }) && x@ == command@,
        (IpVersion::V4, IpConfigMethod::Interface { iface, matches }) => match interface_network_v4(matches@) {
            Ok(n) => r matches Ok(IpService::InterfaceV4 { iface: i, matches: m }) && i@ == iface@ && m == n,
            Err(e) => r == Err::<IpService, DynamicIpError>(DynamicIpError::InvalidNetwork(e)),
        },
        (IpVersion::V6, IpConfigMethod::Interface { iface, matches }) => match interface_network_v6(matches@) {
            Ok(n) => r matches Ok(IpService::InterfaceV6 { iface: i, matches: m }) && i@ == iface@ && m == n,
            Err(e) => r == Err::<IpService, DynamicIpError>(DynamicIpError::InvalidNetwork(e)),
        },
        (IpVersion::V4, IpConfigMethod::Http { url, regex }) => if regex@.len() == 0 {
            r matches Ok(IpService::HttpV4 { url: u, regex: None }) && u@ == url@
        } else if pattern_valid(regex@) {
            r matches Ok(IpService::HttpV4 { url: u, regex: Some(p) }) && u@ == url@ && p@ == regex@
        } else {
            r matches Err(DynamicIpError::InvalidRegex(_))
        },
        (IpVersion::V6, IpConfigMethod::Http { url, regex }) => if regex@.len() == 0 {
            r matches Ok(IpService::HttpV6 { url: u, regex: None }) && u@ == url@
        } else if pattern_valid(regex@) {
            r matches Ok(IpService::HttpV6 { url: u, regex: Some(p) }) && u@ == url@ && p@ == regex@
        } else {
            r matches Err(DynamicIpError::InvalidRegex(_))
        },
    }
}

fn interface_v4(matches: &String) -> (r: Result<NetworkV4, NetworkParseErr>)
    ensures
        r == interface_network_v4(matches@),
{
    let cs = chars_of(matches.as_str());
    if cs.len() == 0 {
        Ok(NetworkV4::from_prefix(0, 0))
    } else {
        NetworkV4::parse_chars(&trim_chars(&cs))
    }
}

fn interface_v6(matches: &String) -> (r: Result<NetworkV6, NetworkParseErr>)
    ensures
        r == interface_network_v6(matches@),
{
    let cs = chars_of(matches.as_str());
    if cs.len() == 0 {
        Ok(NetworkV6::from_prefix(0, 0))
    } else {
        NetworkV6::parse_chars(&trim_chars(&cs))
    }
}

fn checked_pattern(regex: &String) -> (r: Result<Option<String>, DynamicIpError>)
    ensures
        regex@.len() == 0 ==> r == Ok::<Option<String>, DynamicIpError>(None),
        regex@.len() > 0 && pattern_valid(regex@) ==> (r matches Ok(Some(p)) && p@ == regex@),
        regex@.len() > 0 && !pattern_valid(regex@) ==> r matches Err(DynamicIpError::InvalidRegex(_)),
{
    if regex.as_str().is_empty() {
        return Ok(None);
    }
    match pattern_error(regex.as_str()) {
        Some(msg) => Err(DynamicIpError::InvalidRegex(msg)),
        None => Ok(Some(regex.clone())),
    }
}

impl IpService {
    /// The source that `config` describes, checking its network and pattern.
    pub fn from_config(config: &IpConfig) -> (r: Result<Self, DynamicIpError>)
        ensures
            service_from(*config, r),
    {
        match (&config.version, &config.method) {
            (IpVersion::V4, IpConfigMethod::Exec { command }) => Ok(IpService::ExecV4 { command: command.clone() }),
            (IpVersion::V6, IpConfigMethod::Exec { command }) => Ok(IpService::ExecV6 { command: command.clone() }),
            (IpVersion::V4, IpConfigMethod::Interface { iface, matches }) => match interface_v4(matches) {
                Ok(n) => Ok(IpService::InterfaceV4 { iface: iface.clone(), matches: n }),
                Err(e) => Err(DynamicIpError::InvalidNetwork(e)),
            },
            (IpVersion::V6, IpConfigMethod::Interface { iface, matches }) => match interface_v6(matches) {
                Ok(n) => Ok(IpService::InterfaceV6 { iface: iface.clone(), matches: n }),
                Err(e) => Err(DynamicIpError::InvalidNetwork(e)),
            },
            (IpVersion::V4, IpConfigMethod::Http { url, regex }) => match checked_pattern(regex) {
                Ok(p) => Ok(IpService::HttpV4 { url: url.clone(), regex: p }),
                Err(e) => Err(e),
            },
            (IpVersion::V6, IpConfigMethod::Http { url, regex }) => match checked_pattern(regex) {
                Ok(p) => Ok(IpService::HttpV6 { url: url.clone(), regex: p }),
                Err(e) => Err(e),
            },
        }
    }

    /// The address family this source yields.
    pub fn version(&self) -> (r: IpVersion)
        ensures
            r == service_version(*self),
    {
        match self {
            IpService::ExecV4 { .. } | IpService::HttpV4 { .. } | IpService::InterfaceV4 { .. } => IpVersion::V4,
            _ => IpVersion::V6,
        }
    }
}

pub open spec fn service_version(s: IpService) -> IpVersion {
    match s {
        IpService::ExecV4 { .. } | IpService::HttpV4 { .. } | IpService::InterfaceV4 { .. } => IpVersion::V4,
        _ => IpVersion::V6,
    }
}

/// The address of family `version` written by `s`.
pub open spec fn family_address(version: IpVersion, s: Seq<char>) -> Option<IpAddress> {
    match version {
        IpVersion::V4 => match ipv4_spec(s) {
            Some(v) => Some(IpAddress::V4(v)),
            None => None,
        },
        IpVersion::V6 => match ipv6_spec(s) {
            Some(v) => Some(IpAddress::V6(v)),
            None => None,
        },
    }
}

/// Parses an address of family `version` from characters.
pub fn parse_family(version: IpVersion, cs: &Vec<char>) -> (r: Option<IpAddress>)
    ensures
        r == family_address(version, cs@),
{
    match version {
        IpVersion::V4 => match crate::addr::ipv4_from_chars(cs) {
            Some(v) => Some(IpAddress::V4(v)),
            None => None,
        },
        IpVersion::V6 => match crate::addr::ipv6_from_chars(cs) {
            Some(v) => Some(IpAddress::V6(v)),
            None => None,
        },
    }
}

/// The address a command printed: its standard output must be UTF-8 and,
/// trimmed, an address of family `version`.
pub fn address_from_command_output(version: IpVersion, stdout: &[u8]) -> (r: Result<IpAddress, DynamicIpError>)
    ensures
        valid_utf8(stdout@) && family_address(version, trim_spec(decode_utf8(stdout@))) is Some
            ==> r == Ok::<IpAddress, DynamicIpError>(family_address(version, trim_spec(decode_utf8(stdout@)))->0),
        !(valid_utf8(stdout@) && family_address(version, trim_spec(decode_utf8(stdout@))) is Some)
            ==> r matches Err(DynamicIpError::ExecutionFailure(_)),
{
    let text = match utf8_to_string(stdout) {
        Some(t) => t,
        None => return Err(DynamicIpError::ExecutionFailure(String::from_str("got gibberish from child process"))),
    };
    let cs = trim_chars(&chars_of(text.as_str()));
    match parse_family(version, &cs) {
        Some(a) => Ok(a),
        None => Err(DynamicIpError::ExecutionFailure(String::from_str("invalid IP address syntax"))),
    }
}

/// The last IPv4 address of `s` inside `n`.
pub open spec fn pick_v4(s: Seq<IpAddress>, n: NetworkV4) -> Option<IpAddress>
    decreases s.len(),
{
    if s.len() == 0 {
        None
    } else if s.last() matches IpAddress::V4(v) && in_range_v4(n, v) {
        Some(s.last())
    } else {
        pick_v4(s.drop_last(), n)
    }
}

/// The last IPv6 address of `s` inside `n` that is not deprecated.
pub open spec fn pick_v6(s: Seq<IpAddress>, deprecated: Seq<u128>, n: NetworkV6) -> Option<IpAddress>
    decreases s.len(),
{
    if s.len() == 0 {
        None
    } else if s.last() matches IpAddress::V6(v) && in_range_v6(n, v) && !deprecated.contains(v) {
        Some(s.last())
    } else {
        pick_v6(s.drop_last(), deprecated, n)
    }
}

/// The address an IPv4 interface source yields from the interface's
/// addresses: the last IPv4 one inside `matches`.
pub fn interface_address_v4(addrs: &[IpAddress], matches: &NetworkV4) -> (r: Result<IpAddress, DynamicIpError>)
    ensures
        pick_v4(addrs@, *matches) matches Some(a) ==> r == Ok::<IpAddress, DynamicIpError>(a),
        pick_v4(addrs@, *matches) is None ==> r == Err::<IpAddress, DynamicIpError>(DynamicIpError::InterfaceFailure),
{
    let mut result: Option<IpAddress> = None;
    let mut i: usize = 0;
    while i < addrs.len()
        invariant
            i <= addrs@.len(),
            result == pick_v4(addrs@.subrange(0, i as int), *matches),
        decreases addrs@.len() - i,
    {
        assert(addrs@.subrange(0, i as int + 1).drop_last() =~= addrs@.subrange(0, i as int));
        match addrs[i] {
            IpAddress::V4(v) => {
                if matches.in_range(v) {
                    result = Some(addrs[i]);
                }
            },
            IpAddress::V6(_) => {},
        }
        i = i + 1;
    }
    assert(addrs@.subrange(0, addrs@.len() as int) =~= addrs@);
    match result {
        Some(a) => Ok(a),
        None => Err(DynamicIpError::InterfaceFailure),
    }
}

fn contains_u128(s: &[u128], v: u128) -> (r: bool)
    ensures
        r == s@.contains(v),
{
    let mut i: usize = 0;
    while i < s.len()
        invariant
            i <= s@.len(),
            forall|j: int| 0 <= j < i ==> s@[j] != v,
        decreases s@.len() - i,
    {
        if s[i] == v {
            return true;
        }
        i = i + 1;
    }
    false
}

/// The address an IPv6 interface source yields from the interface's
/// addresses: the last IPv6 one inside `matches` that is not deprecated.
pub fn interface_address_v6(addrs: &[IpAddress], deprecated: &[u128], matches: &NetworkV6) -> (r: Result<IpAddress, DynamicIpError>)
    ensures
        pick_v6(addrs@, deprecated@, *matches) matches Some(a) ==> r == Ok::<IpAddress, DynamicIpError>(a),
        pick_v6(addrs@, deprecated@, *matches) is None ==> r == Err::<IpAddress, DynamicIpError>(DynamicIpError::InterfaceFailure),
{
    let mut result: Option<IpAddress> = None;
    let mut i: usize = 0;
    while i < addrs.len()
        invariant
            i <= addrs@.len(),
            result == pick_v6(addrs@.subrange(0, i as int), deprecated@, *matches),
        decreases addrs@.len() - i,
    {
        assert(addrs@.subrange(0, i as int + 1).drop_last() =~= addrs@.subrange(0, i as int));
        match addrs[i] {
            IpAddress::V6(v) => {
                if matches.in_range(v) && !contains_u128(deprecated, v) {
                    result = Some(addrs[i]);
                }
            },
            IpAddress::V4(_) => {},
        }
        i = i + 1;
    }
    assert(addrs@.subrange(0, addrs@.len() as int) =~= addrs@);
    match result {
        Some(a) => Ok(a),
        None => Err(DynamicIpError::InterfaceFailure),
    }
}

/// The address an HTTP source reads from the response body, given what its
/// pattern captured there: the captured text when there is a pattern, else
/// the trimmed body, which must be an address of family `version`.
pub fn address_from_capture(version: IpVersion, has_pattern: bool, captured: Option<String>, body: &str) -> (r: Result<IpAddress, DynamicIpError>)
    ensures
        has_pattern && captured is None ==> r matches Err(DynamicIpError::HttpFailure(_)),
        has_pattern ==> (captured matches Some(g) ==> (match family_address(version, g@) {
            Some(a) => r == Ok::<IpAddress, DynamicIpError>(a),
            None => r matches Err(DynamicIpError::HttpFailure(_)),
        })),
        !has_pattern ==> (match family_address(version, trim_spec(body@)) {
            Some(a) => r == Ok::<IpAddress, DynamicIpError>(a),
            None => r matches Err(DynamicIpError::HttpFailure(_)),
        }),
{
    let text = if has_pattern {
        match captured {
            Some(g) => chars_of(g.as_str()),
            None => {
                let msg = String::from_str("the following HTTP response does not match regex: ").concat(body);
                return Err(DynamicIpError::HttpFailure(msg));
            },
        }
    } else {
        trim_chars(&chars_of(body))
    };
    match parse_family(version, &text) {
        Some(a) => Ok(a),
        None => Err(DynamicIpError::HttpFailure(String::from_str("invalid IP address syntax"))),
    }
}

/// The address an HTTP source reads from the response body: the first
/// capture group of `pattern` when there is one, else the trimmed body.
pub fn address_from_http_body(version: IpVersion, body: &str, pattern: &Option<String>) -> (r: Result<IpAddress, DynamicIpError>)
    ensures
        pattern is None ==> (match family_address(version, trim_spec(body@)) {
            Some(a) => r == Ok::<IpAddress, DynamicIpError>(a),
            None => r matches Err(DynamicIpError::HttpFailure(_)),
        }),
        pattern matches Some(p) ==> (!pattern_valid(p@) ==> r matches Err(DynamicIpError::HttpFailure(_))),
        pattern matches Some(p) ==> (pattern_valid(p@) ==> (match first_capture(p@, body@) {
            Some(g) => match family_address(version, g) {
                Some(a) => r == Ok::<IpAddress, DynamicIpError>(a),
                None => r matches Err(DynamicIpError::HttpFailure(_)),
            },
            None => r matches Err(DynamicIpError::HttpFailure(_)),
        })),
{
    match pattern {
        Some(p) => {
            let captured = capture_group(p.as_str(), body);
            address_from_capture(version, true, captured, body)
        },
        None => address_from_capture(version, false, None, body),
    }
}

/// The cached address and dirty bit after a refresh that resolved to
/// `resolved`: a failure changes nothing; a success caches the address and
/// is dirty exactly when it differs from what was cached (or nothing was).
pub open spec fn after_update(address: Option<IpAddress>, dirty: bool, resolved: Result<IpAddress, DynamicIpError>) -> (Option<IpAddress>, bool) {
    match resolved {
        Ok(a) => (Some(a), address != Some(a)),
        Err(_) => (address, dirty),
    }
}

impl DynamicIp {
    /// A logical address with the source `config` describes, not yet
    /// resolved, and dirty until its first successful refresh.
    pub fn from_config(config: &IpConfig) -> (r: Result<Self, DynamicIpError>)
        ensures
            r matches Ok(d) ==> d.address is None && d.dirty && service_from(*config, Ok(d.service)),
            r matches Err(e) ==> service_from(*config, Err(e)),
    {
        match IpService::from_config(config) {
            Ok(service) => Ok(DynamicIp { address: None, dirty: true, service }),
            Err(e) => Err(e),
        }
    }

    /// The last known address.
    pub fn address(&self) -> (r: Option<IpAddress>)
        ensures
            r == self.address,
    {
        self.address
    }

    /// Whether the last refresh changed the address.
    pub fn is_dirty(&self) -> (r: bool)
        ensures
            r == self.dirty,
    {
        self.dirty
    }

    /// Primes the cache with an address remembered from an earlier run,
    /// without marking a change.
    pub fn update_from_cache(&mut self, address: IpAddress)
        ensures
            final(self).address == Some(address),
            !final(self).dirty,
            final(self).service == old(self).service,
    {
        self.address = Some(address);
        self.dirty = false;
    }

    /// Applies the outcome of one resolution of this address's source.
    pub fn update(&mut self, resolved: Result<IpAddress, DynamicIpError>) -> (r: Result<(), DynamicIpError>)
        ensures
            (final(self).address, final(self).dirty) == after_update(old(self).address, old(self).dirty, resolved),
            final(self).service == old(self).service,
            resolved matches Err(e) ==> r == Err::<(), DynamicIpError>(e),
            resolved is Ok ==> r is Ok,
    {
        match resolved {
            Ok(a) => {
                self.dirty = match self.address {
                    Some(old_ip) => old_ip != a,
                    None => true,
                };
                self.address = Some(a);
                Ok(())
            },
            Err(e) => Err(e),
        }
    }
}

/// The dirty bit follows the resolved addresses: the first success after
/// nothing was cached marks a change; a second success with the same
/// address marks none; a success with another address marks one; a failure
/// leaves address and bit alone.
pub proof fn lemma_dirty_tracking(
    prior: Option<IpAddress>,
    dirty: bool,
    a: IpAddress,
    b: IpAddress,
    e: DynamicIpError,
)
    ensures
        after_update(None, dirty, Ok(a)).1,
        ({
            let s = after_update(prior, dirty, Ok(a));
            !after_update(s.0, s.1, Ok(a)).1
        }),
        ({
            let s = after_update(prior, dirty, Ok(a));
            a != b ==> after_update(s.0, s.1, Ok(b)).1
        }),
        after_update(prior, dirty, Err(e)) == (prior, dirty),
{
}

} // verus!
