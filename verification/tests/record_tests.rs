//! Tests of the record reconciler against a mock provider.

use std::cell::RefCell;

use cloudflareddns::addr::{Ipv4Address, Ipv6Address};
use cloudflareddns::record::{
    compare_dns_content, plan_update, update_record, DnsContent, DnsProviderClient, DnsRecord,
    ReconcileAction, UpdateRequest,
};
use cloudflareddns::result::CloudflareError;

fn a_content(a: u8, b: u8, c: u8, d: u8) -> DnsContent {
    DnsContent::A {
        content: Ipv4Address { a, b, c, d },
    }
}

fn aaaa_content(s: [u16; 8]) -> DnsContent {
    DnsContent::AAAA {
        content: Ipv6Address {
            s0: s[0],
            s1: s[1],
            s2: s[2],
            s3: s[3],
            s4: s[4],
            s5: s[5],
            s6: s[6],
            s7: s[7],
        },
    }
}

fn record(id: &str, name: &str, ttl: u32, content: DnsContent) -> DnsRecord {
    DnsRecord {
        id: id.to_string(),
        name: name.to_string(),
        ttl,
        proxied: false,
        content,
    }
}

struct MockApiClient {
    list_result: Result<Vec<DnsRecord>, String>,
    update_result: Result<DnsRecord, String>,
    update_calls: RefCell<Vec<(String, String, UpdateRequest)>>,
}

impl MockApiClient {
    fn new(list_result: Result<Vec<DnsRecord>, String>, update_result: Result<DnsRecord, String>) -> Self {
        MockApiClient {
            list_result,
            update_result,
            update_calls: RefCell::new(Vec::new()),
        }
    }
}

impl DnsProviderClient for MockApiClient {
    fn list_records(&self, _zone: &str, _name: &str) -> Result<Vec<DnsRecord>, String> {
        self.list_result.clone()
    }

    fn update_record(
        &self,
        zone: &str,
        record_id: &str,
        params: &UpdateRequest,
    ) -> Result<DnsRecord, String> {
        self.update_calls.borrow_mut().push((
            zone.to_string(),
            record_id.to_string(),
            params.clone(),
        ));
        self.update_result.clone()
    }
}

#[test]
fn get_one_record() {
    let mock_client = MockApiClient::new(
        Ok(vec![
            record(
                "372e67954025e0ba6aaa6d586b9e0b59",
                "example.com",
                3600,
                aaaa_content([0x2001, 0xdb8, 0x85a3, 0, 0, 0x8a2e, 0x0370, 0x7334]),
            ),
            record(
                "372e67954025e0ba6aaa6d586b9e0b59",
                "example.com",
                3600,
                a_content(198, 51, 100, 4),
            ),
        ]),
        Ok(record(
            "372e67954025e0ba6aaa6d586b9e0b59",
            "example.com",
            3600,
            a_content(1, 1, 1, 1),
        )),
    );

    let new_content = a_content(1, 1, 1, 1);

    let record = update_record(
        &mock_client,
        "023e105f4ecef8ad9ca31a8372d0c353",
        "example.com",
        new_content,
    )
    .unwrap();

    assert_eq!(record, "372e67954025e0ba6aaa6d586b9e0b59");
}

#[test]
fn idempotent_when_content_matches() {
    // The sole matching record already holds the desired address: no
    // update call is issued and the record's id comes back.
    let mock = MockApiClient::new(
        Ok(vec![record("R1", "h.example", 120, a_content(1, 1, 1, 1))]),
        Err("must not be called".to_string()),
    );

    let outcome = update_record(&mock, "Z", "h.example", a_content(1, 1, 1, 1));

    assert_eq!(outcome, Ok("R1".to_string()));
    assert_eq!(mock.update_calls.borrow().len(), 0);
}

#[test]
fn updates_when_content_differs() {
    let mock = MockApiClient::new(
        Ok(vec![record("R1", "h.example", 120, a_content(2, 2, 2, 2))]),
        Ok(record("R1", "h.example", 120, a_content(1, 1, 1, 1))),
    );

    let outcome = update_record(&mock, "Z", "h.example", a_content(1, 1, 1, 1));

    assert_eq!(outcome, Ok("R1".to_string()));
    let calls = mock.update_calls.borrow();
    assert_eq!(calls.len(), 1);
    let (zone, id, params) = &calls[0];
    assert_eq!(zone, "Z");
    assert_eq!(id, "R1");
    assert_eq!(params.ttl, 120);
    assert!(params.proxied);
    assert_eq!(params.name, "h.example");
    assert_eq!(params.content, a_content(1, 1, 1, 1));
}

#[test]
fn cross_family_records_are_invisible() {
    // An A record and an AAAA record share the name; reconciling an
    // AAAA address only sees and updates the AAAA record.
    let target = aaaa_content([0x2001, 0xdb8, 0, 0, 0, 0, 0, 1]);
    let mock = MockApiClient::new(
        Ok(vec![
            record("RA", "h.example", 300, a_content(1, 1, 1, 1)),
            record("R6", "h.example", 3600, aaaa_content([0, 0, 0, 0, 0, 0, 0, 1])),
        ]),
        Ok(record("R6", "h.example", 3600, target.clone())),
    );

    let outcome = update_record(&mock, "Z", "h.example", target.clone());

    assert_eq!(outcome, Ok("R6".to_string()));
    let calls = mock.update_calls.borrow();
    assert_eq!(calls.len(), 1);
    assert_eq!(calls[0].1, "R6");
    assert_eq!(calls[0].2.ttl, 3600);
    assert_eq!(calls[0].2.content, target);
}

#[test]
fn two_matching_records_are_ambiguous() {
    let mock = MockApiClient::new(
        Ok(vec![
            record("R1", "h.example", 120, a_content(1, 1, 1, 1)),
            record("R2", "h.example", 120, a_content(2, 2, 2, 2)),
        ]),
        Err("must not be called".to_string()),
    );

    let outcome = update_record(&mock, "Z", "h.example", a_content(9, 9, 9, 9));

    assert_eq!(outcome, Err(CloudflareError::AmbiguousOrMissing(2)));
    assert_eq!(mock.update_calls.borrow().len(), 0);
}

#[test]
fn no_matching_record_is_ambiguous_too() {
    let mock = MockApiClient::new(Ok(vec![]), Err("must not be called".to_string()));

    let outcome = update_record(&mock, "Z", "h.example", a_content(9, 9, 9, 9));

    assert_eq!(outcome, Err(CloudflareError::AmbiguousOrMissing(0)));
    assert_eq!(mock.update_calls.borrow().len(), 0);
}

#[test]
fn provider_failure_surfaces_opaquely() {
    let mock = MockApiClient::new(
        Err("upstream said no".to_string()),
        Err("must not be called".to_string()),
    );

    let outcome = update_record(&mock, "Z", "h.example", a_content(1, 1, 1, 1));

    assert_eq!(
        outcome,
        Err(CloudflareError::ApiError("upstream said no".to_string()))
    );
}

#[test]
fn plan_preserves_ttl_and_forces_proxied() {
    let records = vec![record("R9", "h.example", 86400, a_content(5, 5, 5, 5))];

    let action = plan_update(records, "h.example", a_content(6, 6, 6, 6));

    match action {
        ReconcileAction::Update { record_id, params } => {
            assert_eq!(record_id, "R9");
            assert_eq!(params.ttl, 86400);
            assert!(params.proxied);
            assert_eq!(params.name, "h.example");
            assert_eq!(params.content, a_content(6, 6, 6, 6));
        },
        other => panic!("expected an update plan, got {:?}", other),
    }
}

#[test]
fn plan_reports_filtered_count_on_failure() {
    let records = vec![
        record("R1", "h.example", 120, a_content(1, 1, 1, 1)),
        record("R2", "h.example", 120, aaaa_content([0, 0, 0, 0, 0, 0, 0, 1])),
        record("R3", "h.example", 120, a_content(2, 2, 2, 2)),
        record("R4", "h.example", 120, a_content(3, 3, 3, 3)),
    ];

    let action = plan_update(records, "h.example", a_content(9, 9, 9, 9));

    assert_eq!(action, ReconcileAction::Fail { matching: 3 });
}

#[test]
fn unknown_content_is_never_equal() {
    // An `Other` record of the same name is updated rather than
    // silently skipped, and `Other` never equals anything.
    assert!(!compare_dns_content(&DnsContent::Other, &DnsContent::Other));
    assert!(!compare_dns_content(&DnsContent::Other, &a_content(1, 1, 1, 1)));
    assert!(compare_dns_content(
        &DnsContent::CNAME { content: "x.example".to_string() },
        &DnsContent::CNAME { content: "x.example".to_string() },
    ));
    assert!(!compare_dns_content(
        &DnsContent::CNAME { content: "x.example".to_string() },
        &DnsContent::CNAME { content: "y.example".to_string() },
    ));
    assert!(!compare_dns_content(
        &a_content(1, 1, 1, 1),
        &aaaa_content([0, 0, 0, 0, 0, 0, 0, 1]),
    ));
}
