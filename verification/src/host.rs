//! The host guard: which targets an outbound request may reach.

use vstd::prelude::*;
use crate::client::ClientError;
use crate::ip_range::PermittedIpRange;
use crate::rewrite_url::serialization;

verus! {

/// An IP address by its parts: four octets, or eight groups of sixteen bits.
#[derive(Debug, Clone, Copy)]
pub enum IpAddress {
    V4([u8; 4]),
    V6([u16; 8]),
}

/// The host of a URL: an address by its parts and as text, or a name.
#[derive(Debug)]
pub enum Host {
    Ipv4([u8; 4], String),
    Ipv6([u16; 8], String),
    Domain(String),
}

/// The host of a URL given by its text, as `url::Url::host` reports it.
pub uninterp spec fn host_of(url: Seq<char>) -> Option<Host>;

/// `url::Url::host`: the host of the URL, an address with its octets or groups
/// and the text that stands for it, or a domain name.
#[verifier::external_body]
pub(crate) fn url_host(u: &url::Url) -> (host: Option<Host>)
    ensures
        host == host_of(serialization(*u)),
{
    u.host().map(|host| match host {
        url::Host::Ipv4(ip) => Host::Ipv4(ip.octets(), ip.to_string()),
        url::Host::Ipv6(ip) => Host::Ipv6(ip.segments(), ip.to_string()),
        url::Host::Domain(name) => Host::Domain(name.to_string()),
    })
}

/// What the host guard says of a host before any name is resolved: an address
/// passes or is denied; a name has to be resolved, and is returned.
pub open spec fn host_verdict(range: PermittedIpRange, host: Option<Host>) -> Result<Option<String>, ClientError> {
    match host {
        None => Ok(None),
        Some(Host::Ipv4(octets, text)) => if v4_permitted(range, octets@) {
            Ok(None)
        } else {
            Err(ClientError::IpRangeDenied(text))
        },
        Some(Host::Ipv6(groups, text)) => if v6_permitted(range, groups@) {
            Ok(None)
        } else {
            Err(ClientError::IpRangeDenied(text))
        },
        Some(Host::Domain(name)) => Ok(Some(name)),
    }
}

/// Holds the host of a target against the permitted range. A URL without a
/// host passes. For a domain name the answer is the name: it has to be
/// resolved, and `verify_hostname` decides on the address.
pub fn validate_request_host(permitted_ip_range: PermittedIpRange, url: &url::Url) -> (res: Result<
    Option<String>,
    ClientError,
>)
    ensures
        match host_verdict(permitted_ip_range, host_of(serialization(*url))) {
            Ok(None) => res matches Ok(None),
            Ok(Some(name)) => res matches Ok(Some(n)) && n@ == name@,
            Err(ClientError::IpRangeDenied(text)) => res matches Err(ClientError::IpRangeDenied(t)) && t@ == text@,
            Err(_) => false,
        },
{
    match url_host(url) {
        None => Ok(None),
        Some(Host::Ipv4(octets, text)) => match verify_ip_v4_range(permitted_ip_range, octets, text.as_str()) {
            Ok(()) => Ok(None),
            Err(e) => Err(e),
        },
        Some(Host::Ipv6(groups, text)) => match verify_ip_v6_range(permitted_ip_range, groups, text.as_str()) {
            Ok(()) => Ok(None),
            Err(e) => Err(e),
        },
        Some(Host::Domain(name)) => Ok(Some(name)),
    }
}

/// `169.254.0.0/16`.
pub open spec fn v4_is_link_local(ip: Seq<u8>) -> bool {
    ip[0] == 169 && ip[1] == 254
}

/// `255.255.255.255`.
pub open spec fn v4_is_broadcast(ip: Seq<u8>) -> bool {
    ip[0] == 255 && ip[1] == 255 && ip[2] == 255 && ip[3] == 255
}

/// `127.0.0.0/8`.
pub open spec fn v4_is_loopback(ip: Seq<u8>) -> bool {
    ip[0] == 127
}

/// `10.0.0.0/8`, `172.16.0.0/12` and `192.168.0.0/16`.
pub open spec fn v4_is_private(ip: Seq<u8>) -> bool {
    ||| ip[0] == 10
    ||| (ip[0] == 172 && 16 <= ip[1] <= 31)
    ||| (ip[0] == 192 && ip[1] == 168)
}

/// `0.0.0.0`.
pub open spec fn v4_is_unspecified(ip: Seq<u8>) -> bool {
    ip[0] == 0 && ip[1] == 0 && ip[2] == 0 && ip[3] == 0
}

/// `::1`.
pub open spec fn v6_is_loopback(ip: Seq<u16>) -> bool {
    &&& forall|i: int| 0 <= i < 7 ==> ip[i] == 0
    &&& ip[7] == 1
}

/// `::`.
pub open spec fn v6_is_unspecified(ip: Seq<u16>) -> bool {
    forall|i: int| 0 <= i < 8 ==> ip[i] == 0
}

/// Whether `range` lets a request go to the IPv4 address `ip`.
pub open spec fn v4_permitted(range: PermittedIpRange, ip: Seq<u8>) -> bool {
    match range {
        PermittedIpRange::Nothing => false,
        PermittedIpRange::Global => !(v4_is_link_local(ip) || v4_is_broadcast(ip) || v4_is_loopback(ip) || v4_is_private(
            ip,
        ) || v4_is_unspecified(ip)),
        PermittedIpRange::Private => !(v4_is_link_local(ip) || v4_is_broadcast(ip) || v4_is_loopback(ip)
            || v4_is_unspecified(ip)),
        PermittedIpRange::Local => !(v4_is_link_local(ip) || v4_is_broadcast(ip)),
    }
}

/// Whether `range` lets a request go to the IPv6 address `ip`.
pub open spec fn v6_permitted(range: PermittedIpRange, ip: Seq<u16>) -> bool {
    match range {
        PermittedIpRange::Nothing => false,
        PermittedIpRange::Global | PermittedIpRange::Private => !(v6_is_loopback(ip) || v6_is_unspecified(ip)),
        PermittedIpRange::Local => true,
    }
}

/// Whether `range` lets a request go to `ip`.
pub open spec fn permitted(range: PermittedIpRange, ip: IpAddress) -> bool {
    match ip {
        IpAddress::V4(octets) => v4_permitted(range, octets@),
        IpAddress::V6(groups) => v6_permitted(range, groups@),
    }
}

fn is_link_local(ip: &[u8; 4]) -> (b: bool)
    ensures
        b == v4_is_link_local(ip@),
{
    ip[0] == 169 && ip[1] == 254
}

fn is_broadcast(ip: &[u8; 4]) -> (b: bool)
    ensures
        b == v4_is_broadcast(ip@),
{
    ip[0] == 255 && ip[1] == 255 && ip[2] == 255 && ip[3] == 255
}

fn is_loopback(ip: &[u8; 4]) -> (b: bool)
    ensures
        b == v4_is_loopback(ip@),
{
    ip[0] == 127
}

fn is_private(ip: &[u8; 4]) -> (b: bool)
    ensures
        b == v4_is_private(ip@),
{
    ip[0] == 10 || (ip[0] == 172 && 16 <= ip[1] && ip[1] <= 31) || (ip[0] == 192 && ip[1] == 168)
}

fn is_unspecified(ip: &[u8; 4]) -> (b: bool)
    ensures
        b == v4_is_unspecified(ip@),
{
    ip[0] == 0 && ip[1] == 0 && ip[2] == 0 && ip[3] == 0
}

/// Whether the first seven groups are zero and the last is `last`.
fn is_zero_but_last(ip: &[u16; 8], last: u16) -> (b: bool)
    ensures
        b == ((forall|i: int| 0 <= i < 7 ==> ip@[i] == 0) && ip@[7] == last),
{
    let mut i: usize = 0;
    while i < 7
        invariant
            i <= 7,
            forall|j: int| 0 <= j < i ==> ip@[j] == 0,
        decreases 7 - i,
    {
        if ip[i] != 0 {
            return false;
        }
        i += 1;
    }
    ip[7] == last
}

/// Lets a request to the IPv4 address `ip` pass, or denies it. `address` is
/// the text by which the error names the target.
pub fn verify_ip_v4_range(permitted_ip_range: PermittedIpRange, ip: [u8; 4], address: &str) -> (res: Result<
    (),
    ClientError,
>)
    ensures
        if v4_permitted(permitted_ip_range, ip@) {
            res is Ok
        } else {
            res matches Err(ClientError::IpRangeDenied(host)) && host@ == address@
        },
{
    let denied: bool = match permitted_ip_range {
        PermittedIpRange::Nothing => true,
        PermittedIpRange::Global => is_link_local(&ip) || is_broadcast(&ip) || is_loopback(&ip) || is_private(&ip)
            || is_unspecified(&ip),
        PermittedIpRange::Private => is_link_local(&ip) || is_broadcast(&ip) || is_loopback(&ip) || is_unspecified(
            &ip,
        ),
        PermittedIpRange::Local => is_link_local(&ip) || is_broadcast(&ip),
    };
    if denied {
        Err(ClientError::IpRangeDenied(address.to_owned()))
    } else {
        Ok(())
    }
}

/// Lets a request to the IPv6 address `ip` pass, or denies it. `address` is
/// the text by which the error names the target.
pub fn verify_ip_v6_range(permitted_ip_range: PermittedIpRange, ip: [u16; 8], address: &str) -> (res: Result<
    (),
    ClientError,
>)
    ensures
        if v6_permitted(permitted_ip_range, ip@) {
            res is Ok
        } else {
            res matches Err(ClientError::IpRangeDenied(host)) && host@ == address@
        },
{
    let denied: bool = match permitted_ip_range {
        PermittedIpRange::Nothing => true,
        PermittedIpRange::Global | PermittedIpRange::Private => {
            let loopback = is_zero_but_last(&ip, 1);
            let unspecified = is_zero_but_last(&ip, 0);
            proof {
                if unspecified {
                    assert forall|i: int| 0 <= i < 8 implies ip@[i] == 0 by {
                        if i < 7 {
                        }
                    }
                }
                if v6_is_unspecified(ip@) {
                    assert(ip@[7] == 0);
                }
            }
            loopback || unspecified
        },
        PermittedIpRange::Local => false,
    };
    if denied {
        Err(ClientError::IpRangeDenied(address.to_owned()))
    } else {
        Ok(())
    }
}

/// Decides on a host name once the resolver has answered: the first address
/// that it gave is held against the range; without an address the name counts
/// as unknown. `address` is the text of that first address.
pub fn verify_hostname(
    permitted_ip_range: PermittedIpRange,
    hostname: &str,
    resolved: Option<IpAddress>,
    address: &str,
) -> (res: Result<(), ClientError>)
    ensures
        match resolved {
            None => res matches Err(ClientError::ResolveHostname(host)) && host@ == hostname@,
            Some(ip) => if permitted(permitted_ip_range, ip) {
                res is Ok
            } else {
                res matches Err(ClientError::IpRangeDenied(host)) && host@ == address@
            },
        },
{
    match resolved {
        None => Err(ClientError::ResolveHostname(hostname.to_owned())),
        Some(IpAddress::V4(ip)) => verify_ip_v4_range(permitted_ip_range, ip, address),
        Some(IpAddress::V6(ip)) => verify_ip_v6_range(permitted_ip_range, ip, address),
    }
}

} // verus!
