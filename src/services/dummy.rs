//! A provider that changes nothing and confirms what it is sent.

use vstd::prelude::*;
use crate::addr::IpAddress;
use crate::services::{DdnsUpdateError, first_v4, first_v6, opt_seq, submitted};
use crate::util::FixedVec;

verus! {

#[derive(Clone, Debug, PartialEq, Eq)]
pub struct Config {
    pub domains: Vec<String>,
}

#[derive(Clone, Debug, PartialEq, Eq)]
pub struct Service {
    pub config: Config,
}

impl Service {
    pub fn from_config(config: Config) -> (r: Self)
        ensures
            r.config == config,
    {
        Service { config }
    }

    /// Confirms the first IPv4 and the first IPv6 address of `ips`.
    pub fn update_record(&mut self, ips: &[IpAddress]) -> (r: Result<FixedVec<IpAddress, 2>, DdnsUpdateError>)
        ensures
            *final(self) == *old(self),
            r matches Ok(v) && v.view() == opt_seq(first_v4(ips@)) + opt_seq(first_v6(ips@)),
    {
        Ok(submitted(ips))
    }
}

} // verus!
