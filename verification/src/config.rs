//! What is set once at startup and read by every request.

use vstd::prelude::*;
use crate::ip_range::PermittedIpRange;

verus! {

/// The settings of a running proxy.
#[derive(Debug)]
pub struct Config {
    /// Whether a redirect of the origin is followed without asking.
    pub follow_redirects: bool,
    /// The key that signs proxy URLs.
    pub hmac_secret: Vec<u8>,
    /// Whether images may load lazily.
    pub lazy_images: bool,
    /// The addresses that outbound requests may reach.
    pub permitted_ip_range: PermittedIpRange,
    /// An upstream proxy for outbound requests.
    pub proxy_address: Option<String>,
    /// How long the origin may take, in seconds.
    pub request_timeout: u8,
    /// How many workers serve requests; zero leaves the choice to the server.
    pub worker_count: u8,
}

/// The query of a request to the proxy: the target and its signature.
#[derive(Debug)]
pub struct IndexHttpArgs {
    pub url: Option<String>,
    pub hash: Option<String>,
}

impl IndexHttpArgs {
    /// The target and its signature, where the query names both.
    pub open spec fn spec_target(&self) -> Option<(Seq<char>, Seq<char>)> {
        match (self.url, self.hash) {
            (Some(url), Some(hash)) => Some((url@, hash@)),
            _ => None,
        }
    }

    /// The target and its signature, where the query names both; a query that
    /// names no target, or a target without a signature, asks for the landing
    /// page.
    pub fn target(&self) -> (named: Option<(&str, &str)>)
        ensures
            match self.spec_target() {
                Some(expected) => named matches Some(pair) && pair.0@ == expected.0 && pair.1@ == expected.1,
                None => named is None,
            },
    {
        match (&self.url, &self.hash) {
            (Some(url), Some(hash)) => Some((url.as_str(), hash.as_str())),
            _ => None,
        }
    }
}

} // verus!
