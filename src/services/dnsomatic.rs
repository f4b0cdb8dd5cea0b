//! DNS-O-Matic, IPv64, Dynu and selfHOST: DynDNS-style providers at fixed
//! update URLs.

use vstd::prelude::*;
use vstd::utf8::encode_utf8;
use crate::services::shared_dyndns;

verus! {

pub type Config = shared_dyndns::Config;

/// DNS-O-Matic.
pub fn from_config(config: Config) -> (r: shared_dyndns::Service)
    requires
        encode_utf8(config.username@ + ":"@ + config.password@).len() <= usize::MAX / 512,
    ensures
        r.name == "DNS-O-Matic" && r.server == "https://updates.dnsomatic.com/nic/update",
        r.config == config,
        r.suspended == crate::services::Suspension::Cycles(0),
{
    shared_dyndns::Service::from_config("DNS-O-Matic", "https://updates.dnsomatic.com/nic/update", config)
}

/// IPv64.
pub fn ipv64(config: Config) -> (r: shared_dyndns::Service)
    requires
        encode_utf8(config.username@ + ":"@ + config.password@).len() <= usize::MAX / 512,
    ensures
        r.name == "IPv64" && r.server == "https://ipv64.net/nic/update",
        r.config == config,
        r.suspended == crate::services::Suspension::Cycles(0),
{
    shared_dyndns::Service::from_config("IPv64", "https://ipv64.net/nic/update", config)
}

/// Dynu.
pub fn dynu(config: Config) -> (r: shared_dyndns::Service)
    requires
        encode_utf8(config.username@ + ":"@ + config.password@).len() <= usize::MAX / 512,
    ensures
        r.name == "Dynu" && r.server == "https://api.dynu.com/nic/update",
        r.config == config,
        r.suspended == crate::services::Suspension::Cycles(0),
{
    shared_dyndns::Service::from_config("Dynu", "https://api.dynu.com/nic/update", config)
}

/// selfHOST.
pub fn selfhost(config: Config) -> (r: shared_dyndns::Service)
    requires
        encode_utf8(config.username@ + ":"@ + config.password@).len() <= usize::MAX / 512,
    ensures
        r.name == "selfHOST" && r.server == "https://carol.selfhost.de/nic/update",
        r.config == config,
        r.suspended == crate::services::Suspension::Cycles(0),
{
    shared_dyndns::Service::from_config("selfHOST", "https://carol.selfhost.de/nic/update", config)
}

} // verus!
