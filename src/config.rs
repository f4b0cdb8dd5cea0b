//! The configuration, as plain values: the general section, the logical
//! addresses and the update targets.

use vstd::prelude::*;
use crate::services::{cloudflare, dnsomatic, duckdns, dummy, linode, noip, porkbun, router_1, shared_dyndns};

verus! {

/// The `[general]` section.
#[derive(Clone, Debug, PartialEq, Eq)]
pub struct General {
    /// Seconds between cycles; `None` (or zero) runs a single cycle.
    pub update_rate: Option<u32>,
    /// The shell that runs address commands.
    pub shell: String,
    /// The user agent of HTTP requests.
    pub user_agent: String,
    /// Where the persistent state is kept.
    pub persistent_state: String,
}

/// How a logical address is obtained.
#[derive(Clone, Debug, PartialEq, Eq)]
pub enum IpConfigMethod {
    /// Run `command` through the shell and read its output.
    Exec { command: String },
    /// Take an address of interface `iface` inside network `matches`
    /// (empty: any address).
    Interface { iface: String, matches: String },
    /// Fetch `url` and take the first capture group of `regex` (empty: the
    /// whole trimmed body).
    Http { url: String, regex: String },
}

/// The address family of a logical address.
#[derive(Clone, Copy, Debug, PartialEq, Eq, Structural, Hash)]
pub enum IpVersion {
    V4,
    V6,
}

/// One `[ip.*]` entry.
#[derive(Clone, Debug, PartialEq, Eq)]
pub struct IpConfig {
    pub version: IpVersion,
    pub method: IpConfigMethod,
}

/// The provider of a `[ddns.*]` entry, with its own settings.
#[derive(Clone, Debug, PartialEq, Eq)]
pub enum DdnsConfigService {
    CloudflareV4(cloudflare::Config),
    DnsOMatic(dnsomatic::Config),
    Duckdns(duckdns::Config),
    Dynu(shared_dyndns::Config),
    Ipv64(shared_dyndns::Config),
    Linode(linode::Config),
    PorkbunV3(porkbun::Config),
    Selfhost(shared_dyndns::Config),
    NoIp(noip::Config),
    Dummy(dummy::Config),
    Router1(router_1::Config),
}

/// One `[ddns.*]` entry: the logical addresses it follows and its provider.
#[derive(Clone, Debug, PartialEq, Eq)]
pub struct DdnsConfig {
    pub ip: Vec<String>,
    pub service: DdnsConfigService,
}

/// The shell used when the configuration names none.
pub fn default_shell() -> (r: String)
    ensures
        r@ == "/bin/bash"@,
{
    String::from_str("/bin/bash")
}

/// The pattern used when an HTTP source names none: the whole first line.
pub fn default_regex() -> (r: String)
    ensures
        r@ == "(.*)"@,
{
    String::from_str("(.*)")
}

/// Where the persistent state is kept when the configuration says nothing.
pub fn default_persistent_state() -> (r: String)
    ensures
        r@ == "/var/lib/dynners/persistence"@,
{
    String::from_str("/var/lib/dynners/persistence")
}

/// The whole configuration; entries keep the order of the file.
#[derive(Clone, Debug, PartialEq, Eq)]
pub struct Config {
    pub general: General,
    pub ip: Vec<(String, IpConfig)>,
    pub ddns: Vec<(String, DdnsConfig)>,
}

} // verus!
