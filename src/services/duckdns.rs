//! DuckDNS: one request naming the domains and the addresses.

use vstd::prelude::*;
use crate::addr::IpAddress;
use crate::services::{DdnsUpdateError, first_v4, first_v6, opt_seq, submitted};
use crate::text::{chars_of, has_prefix, starts_with};
use crate::util::FixedVec;

verus! {

#[derive(Clone, Debug, PartialEq, Eq)]
pub struct Config {
    pub token: String,
    pub domains: Vec<String>,
}

#[derive(Clone, Debug, PartialEq, Eq)]
pub struct Service {
    pub config: Config,
}

impl Service {
    pub fn from(config: Config) -> (r: Self)
        ensures
            r.config == config,
    {
        Service { config }
    }

    /// Reads DuckDNS's answer to an update that submitted `ips`: `OK` (or
    /// `good`) confirms all that was submitted; anything else is a refusal.
    pub fn read_answer(&self, body: &str, ips: &[IpAddress]) -> (r: Result<FixedVec<IpAddress, 2>, DdnsUpdateError>)
        ensures
            (has_prefix(body@, "OK"@) || has_prefix(body@, "good"@)) ==> (r matches Ok(v) && v.view()
                == opt_seq(first_v4(ips@)) + opt_seq(first_v6(ips@))),
            !(has_prefix(body@, "OK"@) || has_prefix(body@, "good"@)) ==> r
                == Err::<FixedVec<IpAddress, 2>, DdnsUpdateError>(DdnsUpdateError::DuckDns),
    {
        let cs = chars_of(body);
        if starts_with(&cs, "OK") || starts_with(&cs, "good") {
            Ok(submitted(ips))
        } else {
            Err(DdnsUpdateError::DuckDns)
        }
    }
}

} // verus!
