//! Tests of the public-address resolver and the IP literal parser.

use cloudflareddns::addr::{parse_ip, IpAddress, Ipv4Address, Ipv6Address};
use cloudflareddns::ip::{get_public_ip, parse_ip_body, GetBlocking};
use cloudflareddns::result::FetchPublicIPError;

struct MockClient {
    ip: String,
}

impl GetBlocking for MockClient {
    fn get(&self, _url: &str) -> Result<String, String> {
        Ok(self.ip.clone())
    }
}

struct FailingClient;

impl GetBlocking for FailingClient {
    fn get(&self, _url: &str) -> Result<String, String> {
        Err("connection refused".to_string())
    }
}

fn v4(a: u8, b: u8, c: u8, d: u8) -> IpAddress {
    IpAddress::V4(Ipv4Address { a, b, c, d })
}

fn v6(s: [u16; 8]) -> IpAddress {
    IpAddress::V6(Ipv6Address {
        s0: s[0],
        s1: s[1],
        s2: s[2],
        s3: s[3],
        s4: s[4],
        s5: s[5],
        s6: s[6],
        s7: s[7],
    })
}

#[test]
fn test_ipv4() {
    let client = MockClient {
        ip: r#"{"ip": "1.1.1.1"}"#.to_string(),
    };

    assert_eq!(get_public_ip(client, "any").unwrap(), v4(1, 1, 1, 1))
}

#[test]
fn test_invalid_ipv4() {
    let client = MockClient {
        ip: r#"{"ip": "1.1.1.1.1"}"#.to_string(),
    };

    assert!(matches!(
        get_public_ip(client, "any"),
        Err(FetchPublicIPError::InvalidIPAddress(_))
    ));
}

#[test]
fn test_ipv6() {
    let client = MockClient {
        ip: r#"{"ip": "2001:0db8:85a3:0000:0000:8a2e:0370:7334"}"#.to_string(),
    };

    assert_eq!(
        get_public_ip(client, "any").unwrap(),
        v6([0x2001, 0xdb8, 0x85a3, 0x0, 0x0, 0x8a2e, 0x0370, 0x7334])
    )
}

#[test]
fn invalid_address_carries_offending_text() {
    let client = MockClient {
        ip: r#"{"ip": "1.1.1.1.1"}"#.to_string(),
    };

    assert_eq!(
        get_public_ip(client, "any"),
        Err(FetchPublicIPError::InvalidIPAddress("1.1.1.1.1".to_string()))
    );
}

#[test]
fn empty_object_has_no_ip_key() {
    let client = MockClient {
        ip: "{}".to_string(),
    };

    assert_eq!(
        get_public_ip(client, "any"),
        Err(FetchPublicIPError::NoIPKey)
    );
}

#[test]
fn malformed_body_fails_to_decode() {
    let client = MockClient {
        ip: "not json".to_string(),
    };

    assert!(matches!(
        get_public_ip(client, "any"),
        Err(FetchPublicIPError::DeserializeError(_))
    ));
}

#[test]
fn transport_failure_surfaces_as_request_error() {
    assert!(matches!(
        get_public_ip(FailingClient, "any"),
        Err(FetchPublicIPError::RequestError(_))
    ));
}

#[test]
fn ip_field_must_be_a_string() {
    let client = MockClient {
        ip: r#"{"ip": 42}"#.to_string(),
    };

    assert_eq!(
        get_public_ip(client, "any"),
        Err(FetchPublicIPError::NoIPKey)
    );
}

#[test]
fn body_parse_reads_the_ip_field() {
    // Distinguishes reading the field from handing the body back.
    assert_eq!(
        parse_ip_body(r#"{"ip": "8.8.4.4", "country": "ZZ"}"#),
        Ok(v4(8, 8, 4, 4))
    );
}

#[test]
fn parse_accepts_canonical_ipv4() {
    assert_eq!(parse_ip("0.0.0.0"), Some(v4(0, 0, 0, 0)));
    assert_eq!(parse_ip("255.255.255.255"), Some(v4(255, 255, 255, 255)));
    assert_eq!(parse_ip("192.168.0.1"), Some(v4(192, 168, 0, 1)));
}

#[test]
fn parse_rejects_malformed_ipv4() {
    assert_eq!(parse_ip("256.1.1.1"), None);
    assert_eq!(parse_ip("01.1.1.1"), None);
    assert_eq!(parse_ip("1.1.1"), None);
    assert_eq!(parse_ip("1.1.1.1."), None);
    assert_eq!(parse_ip("1..1.1"), None);
    assert_eq!(parse_ip(""), None);
    assert_eq!(parse_ip("1234.1.1.1"), None);
}

#[test]
fn parse_accepts_ipv6_forms() {
    assert_eq!(parse_ip("::"), Some(v6([0, 0, 0, 0, 0, 0, 0, 0])));
    assert_eq!(parse_ip("::1"), Some(v6([0, 0, 0, 0, 0, 0, 0, 1])));
    assert_eq!(parse_ip("1::"), Some(v6([1, 0, 0, 0, 0, 0, 0, 0])));
    assert_eq!(
        parse_ip("2001:db8::1"),
        Some(v6([0x2001, 0xdb8, 0, 0, 0, 0, 0, 1]))
    );
    assert_eq!(
        parse_ip("1:2:3:4:5:6:7:8"),
        Some(v6([1, 2, 3, 4, 5, 6, 7, 8]))
    );
    assert_eq!(
        parse_ip("::ffff:1.2.3.4"),
        Some(v6([0, 0, 0, 0, 0, 0xffff, 0x0102, 0x0304]))
    );
    assert_eq!(
        parse_ip("1:2:3:4:5:6:1.2.3.4"),
        Some(v6([1, 2, 3, 4, 5, 6, 0x0102, 0x0304]))
    );
    assert_eq!(
        parse_ip("AbCd::eF"),
        Some(v6([0xabcd, 0, 0, 0, 0, 0, 0, 0xef]))
    );
    assert_eq!(
        parse_ip("1:2:3:4:5:6:7::"),
        Some(v6([1, 2, 3, 4, 5, 6, 7, 0]))
    );
}

#[test]
fn parse_handles_group_budget_around_embedded_ipv4() {
    // An embedded IPv4 literal counts as two groups: seven groups in
    // all still fit beside a `::`, eight do not.
    assert_eq!(
        parse_ip("1:2:3:4:5::1.2.3.4"),
        Some(v6([1, 2, 3, 4, 5, 0, 0x0102, 0x0304]))
    );
    assert_eq!(parse_ip("1:2:3:4:5:6::1.2.3.4"), None);
}

#[test]
fn parse_allows_leading_zeros_in_hex_groups_only() {
    assert_eq!(parse_ip("00ff::"), Some(v6([0xff, 0, 0, 0, 0, 0, 0, 0])));
    assert_eq!(parse_ip("0:0:0:0:0:0:0:1"), Some(v6([0, 0, 0, 0, 0, 0, 0, 1])));
    assert_eq!(parse_ip("1.1.1.01"), None);
}

#[test]
fn parse_rejects_malformed_ipv6() {
    assert_eq!(parse_ip(":::"), None);
    assert_eq!(parse_ip("1::2::3"), None);
    assert_eq!(parse_ip("::1:2:3:4:5:6:7:8"), None);
    assert_eq!(parse_ip("1:2:3:4:5:6:7"), None);
    assert_eq!(parse_ip("1:2:3:4:5:6:7:8:9"), None);
    assert_eq!(parse_ip("12345::"), None);
    assert_eq!(parse_ip("g::1"), None);
    assert_eq!(parse_ip("1:2:3:4:5:6:7::8"), None);
    assert_eq!(parse_ip("1.2.3.4::5"), None);
    assert_eq!(parse_ip("::1.2.3.4.5"), None);
}
