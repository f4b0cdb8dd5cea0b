//! No-IP: a DynDNS-style request whose answer is read by HTTP status first.

use vstd::prelude::*;
use vstd::utf8::encode_utf8;
use crate::addr::IpAddress;
use crate::base64::base64_encode;
use crate::services::{DdnsUpdateError, first_v4, first_v6, opt_seq, submitted};
use crate::services::shared_dyndns::basic_auth;
use crate::text::{chars_of, has_prefix, starts_with};
use crate::util::FixedVec;

verus! {

#[derive(Clone, Debug, PartialEq, Eq)]
pub struct Config {
    pub username: String,
    pub password: String,
    pub domains: Vec<String>,
}

#[derive(Clone, Debug, PartialEq, Eq)]
pub struct Service {
    pub config: Config,
    /// The `Authorization` header value.
    pub auth: String,
}

impl Service {
    pub fn from_config(config: Config) -> (r: Self)
        requires
            encode_utf8(config.username@ + ":"@ + config.password@).len() <= usize::MAX / 512,
        ensures
            r.config == config,
            r.auth@ == basic_auth(config.username@, config.password@),
    {
        let username_password = config.username.clone().concat(":").concat(config.password.as_str());
        let encoded = base64_encode(username_password.as_str().as_bytes());
        let auth = String::from_str("Basic ").concat(encoded.as_str());
        Service { config, auth }
    }

    /// Reads No-IP's answer (HTTP `status` and `body`) to an update that
    /// submitted `ips`: a server error means the service is down; a client
    /// error carries No-IP's explanation; otherwise `nochg` confirms nothing
    /// and any other answer all that was submitted.
    pub fn read_answer(&self, status: u16, body: &str, ips: &[IpAddress]) -> (r: Result<FixedVec<IpAddress, 2>, DdnsUpdateError>)
        ensures
            status >= 500 ==> (r matches Err(DdnsUpdateError::NoIp(m)) && m@ == "NoIP server is down"@),
            400 <= status < 500 ==> (r matches Err(DdnsUpdateError::NoIp(m)) && m@ == body@),
            status < 400 && !has_prefix(body@, "good"@) && has_prefix(body@, "nochg"@) ==> (r matches Ok(v)
                && v.view().len() == 0),
            status < 400 && !(!has_prefix(body@, "good"@) && has_prefix(body@, "nochg"@)) ==> (r matches Ok(v)
                && v.view() == opt_seq(first_v4(ips@)) + opt_seq(first_v6(ips@))),
    {
        if status >= 500 {
            return Err(DdnsUpdateError::NoIp(String::from_str("NoIP server is down")));
        }
        if status >= 400 {
            return Err(DdnsUpdateError::NoIp(body.to_owned()));
        }
        let cs = chars_of(body);
        if !starts_with(&cs, "good") && starts_with(&cs, "nochg") {
            Ok(FixedVec::new())
        } else {
            Ok(submitted(ips))
        }
    }
}

} // verus!
