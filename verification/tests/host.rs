use searproxy::client::ClientError;
use searproxy::host::{validate_request_host, verify_hostname, verify_ip_v4_range, verify_ip_v6_range, IpAddress};
use searproxy::ip_range::{IpRangeParseError, PermittedIpRange};

const IP_V4_UNSPECIFIED: [u8; 4] = [0, 0, 0, 0];

const IP_V4_DENIED_IP_LIST: [[u8; 4]; 2] = [[169, 254, 0, 0], [255, 255, 255, 255]];

const IP_V4_GLOBAL_IP_LIST: [[u8; 4]; 5] = [[1, 1, 1, 1], [1, 0, 0, 1], [8, 8, 8, 8], [8, 8, 4, 4], [9, 9, 9, 9]];

const IP_V4_PRIVATE_IP_LIST: [[u8; 4]; 7] = [
    [10, 0, 0, 1],
    [10, 1, 0, 1],
    [10, 10, 0, 1],
    [172, 16, 0, 1],
    [172, 20, 0, 1],
    [192, 168, 0, 1],
    [192, 168, 1, 1],
];

const IP_V4_LOCAL_IP_LIST: [[u8; 4]; 7] = [
    [127, 0, 0, 1],
    [127, 1, 0, 1],
    [127, 10, 0, 1],
    [127, 16, 0, 1],
    [127, 20, 0, 1],
    [127, 168, 0, 1],
    [127, 200, 1, 1],
];

const IP_V6_UNSPECIFIED: [u16; 8] = [0, 0, 0, 0, 0, 0, 0, 0];
const IP_V6_LOCALHOST: [u16; 8] = [0, 0, 0, 0, 0, 0, 0, 1];

fn v4(range: PermittedIpRange, ip: [u8; 4]) -> Result<(), ClientError> {
    verify_ip_v4_range(range, ip, "address")
}

fn v6(range: PermittedIpRange, ip: [u16; 8]) -> Result<(), ClientError> {
    verify_ip_v6_range(range, ip, "address")
}

#[test]
fn ip_v4_range_none() {
    assert!(v4(PermittedIpRange::Nothing, IP_V4_UNSPECIFIED).is_err());

    for ip in IP_V4_DENIED_IP_LIST {
        assert!(v4(PermittedIpRange::Nothing, ip).is_err());
    }

    for ip in IP_V4_GLOBAL_IP_LIST {
        assert!(v4(PermittedIpRange::Nothing, ip).is_err());
    }

    for ip in IP_V4_PRIVATE_IP_LIST {
        assert!(v4(PermittedIpRange::Nothing, ip).is_err());
    }

    for ip in IP_V4_LOCAL_IP_LIST {
        assert!(v4(PermittedIpRange::Nothing, ip).is_err());
    }
}

#[test]
fn ip_v4_range_global() {
    assert!(v4(PermittedIpRange::Global, IP_V4_UNSPECIFIED).is_err());

    for ip in IP_V4_DENIED_IP_LIST {
        assert!(v4(PermittedIpRange::Global, ip).is_err());
    }

    for ip in IP_V4_GLOBAL_IP_LIST {
        assert!(v4(PermittedIpRange::Global, ip).is_ok());
    }

    for ip in IP_V4_PRIVATE_IP_LIST {
        assert!(v4(PermittedIpRange::Global, ip).is_err());
    }

    for ip in IP_V4_LOCAL_IP_LIST {
        assert!(v4(PermittedIpRange::Global, ip).is_err());
    }
}

#[test]
fn ip_v4_range_private() {
    assert!(v4(PermittedIpRange::Private, IP_V4_UNSPECIFIED).is_err());

    for ip in IP_V4_DENIED_IP_LIST {
        assert!(v4(PermittedIpRange::Private, ip).is_err());
    }

    for ip in IP_V4_GLOBAL_IP_LIST {
        assert!(v4(PermittedIpRange::Private, ip).is_ok());
    }

    for ip in IP_V4_PRIVATE_IP_LIST {
        assert!(v4(PermittedIpRange::Private, ip).is_ok());
    }

    for ip in IP_V4_LOCAL_IP_LIST {
        assert!(v4(PermittedIpRange::Private, ip).is_err());
    }
}

#[test]
fn ip_v4_range_local() {
    assert!(v4(PermittedIpRange::Local, IP_V4_UNSPECIFIED).is_ok());

    for ip in IP_V4_DENIED_IP_LIST {
        assert!(v4(PermittedIpRange::Local, ip).is_err());
    }

    for ip in IP_V4_GLOBAL_IP_LIST {
        assert!(v4(PermittedIpRange::Local, ip).is_ok());
    }

    for ip in IP_V4_PRIVATE_IP_LIST {
        assert!(v4(PermittedIpRange::Local, ip).is_ok());
    }

    for ip in IP_V4_LOCAL_IP_LIST {
        assert!(v4(PermittedIpRange::Local, ip).is_ok());
    }
}

#[test]
fn ip_v6_range_none() {
    assert!(v6(PermittedIpRange::Nothing, IP_V6_UNSPECIFIED).is_err());
    assert!(v6(PermittedIpRange::Nothing, IP_V6_LOCALHOST).is_err());
}

#[test]
fn ip_v6_range_global() {
    assert!(v6(PermittedIpRange::Global, IP_V6_UNSPECIFIED).is_err());
    assert!(v6(PermittedIpRange::Global, IP_V6_LOCALHOST).is_err());
}

#[test]
fn ip_v6_range_private() {
    assert!(v6(PermittedIpRange::Private, IP_V6_UNSPECIFIED).is_err());
    assert!(v6(PermittedIpRange::Private, IP_V6_LOCALHOST).is_err());
}

#[test]
fn ip_v6_range_local() {
    assert!(v6(PermittedIpRange::Local, IP_V6_UNSPECIFIED).is_ok());
    assert!(v6(PermittedIpRange::Local, IP_V6_LOCALHOST).is_ok());
}

#[test]
fn ip_v6_other_addresses_pass_unless_nothing_is_permitted() {
    let public = [0x2001, 0xdb8, 0, 0, 0, 0, 0, 1];
    let almost_loopback = [0, 0, 0, 1, 0, 0, 0, 1];
    assert!(v6(PermittedIpRange::Global, public).is_ok());
    assert!(v6(PermittedIpRange::Private, public).is_ok());
    assert!(v6(PermittedIpRange::Global, almost_loopback).is_ok());
    assert!(v6(PermittedIpRange::Nothing, public).is_err());
}

#[test]
fn ip_v4_bounds_of_the_private_networks() {
    assert!(v4(PermittedIpRange::Global, [172, 15, 255, 255]).is_ok());
    assert!(v4(PermittedIpRange::Global, [172, 16, 0, 0]).is_err());
    assert!(v4(PermittedIpRange::Global, [172, 31, 255, 255]).is_err());
    assert!(v4(PermittedIpRange::Global, [172, 32, 0, 0]).is_ok());
    assert!(v4(PermittedIpRange::Global, [192, 167, 1, 1]).is_ok());
    assert!(v4(PermittedIpRange::Global, [169, 253, 1, 1]).is_ok());
    assert!(v4(PermittedIpRange::Local, [169, 254, 255, 255]).is_err());
    assert!(v4(PermittedIpRange::Local, [255, 255, 255, 254]).is_ok());
}

#[test]
fn denied_address_is_named_in_the_error() {
    match verify_ip_v4_range(PermittedIpRange::Global, [10, 0, 0, 1], "10.0.0.1") {
        Err(ClientError::IpRangeDenied(host)) => assert_eq!(host, "10.0.0.1"),
        other => panic!("unexpected: {:?}", other),
    }
    match verify_ip_v6_range(PermittedIpRange::Global, IP_V6_LOCALHOST, "::1") {
        Err(ClientError::IpRangeDenied(host)) => assert_eq!(host, "::1"),
        other => panic!("unexpected: {:?}", other),
    }
}

#[test]
fn validate_request_host_decides_on_literal_addresses() {
    let loopback = url::Url::parse("http://127.0.0.1/").unwrap();
    match validate_request_host(PermittedIpRange::Global, &loopback) {
        Err(ClientError::IpRangeDenied(host)) => assert_eq!(host, "127.0.0.1"),
        other => panic!("unexpected: {:?}", other),
    }
    assert_eq!(validate_request_host(PermittedIpRange::Local, &loopback).unwrap(), None);

    let public = url::Url::parse("http://8.8.8.8/").unwrap();
    assert_eq!(validate_request_host(PermittedIpRange::Global, &public).unwrap(), None);

    let v6_loopback = url::Url::parse("http://[::1]/").unwrap();
    match validate_request_host(PermittedIpRange::Private, &v6_loopback) {
        Err(ClientError::IpRangeDenied(host)) => assert_eq!(host, "::1"),
        other => panic!("unexpected: {:?}", other),
    }
    assert_eq!(validate_request_host(PermittedIpRange::Local, &v6_loopback).unwrap(), None);
}

#[test]
fn validate_request_host_hands_back_names_and_passes_urls_without_host() {
    let named = url::Url::parse("https://www.example.com/").unwrap();
    assert_eq!(
        validate_request_host(PermittedIpRange::Nothing, &named).unwrap(),
        Some(String::from("www.example.com"))
    );
    let hostless = url::Url::parse("mailto:someone@example.com").unwrap();
    assert_eq!(validate_request_host(PermittedIpRange::Nothing, &hostless).unwrap(), None);
}

#[test]
fn verify_hostname_uses_the_resolved_address() {
    assert!(verify_hostname(PermittedIpRange::Global, "example.com", Some(IpAddress::V4([8, 8, 8, 8])), "8.8.8.8").is_ok());
    match verify_hostname(PermittedIpRange::Global, "intranet", Some(IpAddress::V4([10, 0, 0, 1])), "10.0.0.1") {
        Err(ClientError::IpRangeDenied(host)) => assert_eq!(host, "10.0.0.1"),
        other => panic!("unexpected: {:?}", other),
    }
    match verify_hostname(PermittedIpRange::Private, "localhost", Some(IpAddress::V6(IP_V6_LOCALHOST)), "::1") {
        Err(ClientError::IpRangeDenied(host)) => assert_eq!(host, "::1"),
        other => panic!("unexpected: {:?}", other),
    }
    match verify_hostname(PermittedIpRange::Local, "nowhere.invalid", None, "") {
        Err(ClientError::ResolveHostname(host)) => assert_eq!(host, "nowhere.invalid"),
        other => panic!("unexpected: {:?}", other),
    }
}

#[test]
fn permitted_ip_range_is_read_from_its_name() {
    assert_eq!(PermittedIpRange::from_str("none").unwrap(), PermittedIpRange::Nothing);
    assert_eq!(PermittedIpRange::from_str("local").unwrap(), PermittedIpRange::Local);
    assert_eq!(PermittedIpRange::from_str("private").unwrap(), PermittedIpRange::Private);
    assert_eq!(PermittedIpRange::from_str("global").unwrap(), PermittedIpRange::Global);
    match PermittedIpRange::from_str("Global") {
        Err(IpRangeParseError::Unrecognized(word)) => assert_eq!(word, "Global"),
        other => panic!("unexpected: {:?}", other),
    }
}

#[test]
fn permitted_ip_range_names_round_trip() {
    for range in [PermittedIpRange::Nothing, PermittedIpRange::Local, PermittedIpRange::Private, PermittedIpRange::Global] {
        assert_eq!(PermittedIpRange::from_str(range.as_str()).unwrap(), range);
    }
    assert_eq!(PermittedIpRange::Nothing.as_str(), "none");
}
