//! DNS records and the record reconciler.
//!
//! The reconciler lists the records under a name, keeps only those of
//! the desired address family, insists on exactly one match, and issues
//! an update only when the matched record's content differs from the
//! desired content.  The decision itself is a verified function,
//! `plan_update`; the provider calls around it go through the
//! `DnsProviderClient` capability, which tests implement with mocks.

use vstd::prelude::*;

use crate::addr::{IpAddress, Ipv4Address, Ipv6Address};
use crate::result::CloudflareError;

verus! {

/// The content of a DNS record, tagged by record type.  `Other` stands
/// for every type the updater does not manage.
#[derive(Debug, PartialEq, Eq, Clone)]
#[allow(inconsistent_fields)]
pub enum DnsContent {
    A { content: Ipv4Address },
    AAAA { content: Ipv6Address },
    CNAME { content: String },
    Other,
}

/// A snapshot of a provider-side DNS record, holding the attributes the
/// reconciler reads.
#[derive(Debug, PartialEq, Eq, Clone)]
pub struct DnsRecord {
    pub id: String,
    pub name: String,
    pub ttl: u32,
    pub proxied: bool,
    pub content: DnsContent,
}

/// The body of an update call: the fields the provider is asked to
/// write.
#[derive(Debug, PartialEq, Eq, Clone)]
pub struct UpdateRequest {
    pub ttl: u32,
    pub proxied: bool,
    pub name: String,
    pub content: DnsContent,
}

/// What one reconcile pass decides to do once the records are known.
#[derive(Debug, PartialEq, Eq)]
pub enum ReconcileAction {
    /// The sole matching record already carries the desired content.
    NoChange { record_id: String },
    /// The sole matching record differs; send `params`.
    Update { record_id: String, params: UpdateRequest },
    /// The family filter kept `matching` records instead of exactly one.
    Fail { matching: usize },
}

/// The capability the reconciler needs from a DNS provider.  An error
/// is the provider's own rendering of the failure, surfaced opaquely.
pub trait DnsProviderClient {
    /// Lists the records of the zone that carry exactly `name`.
    fn list_records(&self, zone_identifier: &str, name: &str) -> Result<Vec<DnsRecord>, String>;

    /// Overwrites the record `record_id` of the zone with `params` and
    /// returns the record as the provider now reports it.
    fn update_record(
        &self,
        zone_identifier: &str,
        record_id: &str,
        params: &UpdateRequest,
    ) -> Result<DnsRecord, String>;
}

/// Two contents belong to the same address family: their tags are equal.
pub open spec fn spec_same_family(a: DnsContent, b: DnsContent) -> bool {
    match (a, b) {
        (DnsContent::A { .. }, DnsContent::A { .. }) => true,
        (DnsContent::AAAA { .. }, DnsContent::AAAA { .. }) => true,
        (DnsContent::CNAME { .. }, DnsContent::CNAME { .. }) => true,
        (DnsContent::Other, DnsContent::Other) => true,
        _ => false,
    }
}

/// Two contents are equal only if they share both tag and payload;
/// `Other` is never equal to anything, so an unknown-type record is
/// always updated rather than silently skipped.
pub open spec fn spec_content_equal(a: DnsContent, b: DnsContent) -> bool {
    match (a, b) {
        (DnsContent::A { content: x }, DnsContent::A { content: y }) => x == y,
        (DnsContent::AAAA { content: x }, DnsContent::AAAA { content: y }) => x == y,
        (DnsContent::CNAME { content: x }, DnsContent::CNAME { content: y }) => x@ == y@,
        _ => false,
    }
}

/// The records whose content tag matches `c`, in their original order.
pub open spec fn spec_family_filtered(records: Seq<DnsRecord>, c: DnsContent) -> Seq<DnsRecord>
    decreases records.len(),
{
    if records.len() == 0 {
        Seq::empty()
    } else {
        let rest = spec_family_filtered(records.drop_last(), c);
        if spec_same_family(records.last().content, c) {
            rest.push(records.last())
        } else {
            rest
        }
    }
}

/// Appending a record extends the filtered list exactly when the
/// record's family matches.
pub proof fn lemma_family_filtered_push(s: Seq<DnsRecord>, x: DnsRecord, c: DnsContent)
    ensures
        spec_family_filtered(s.push(x), c) == if spec_same_family(x.content, c) {
            spec_family_filtered(s, c).push(x)
        } else {
            spec_family_filtered(s, c)
        },
{
    assert(s.push(x).drop_last() =~= s);
    assert(s.push(x).last() == x);
}

/// The content derived from an observed address: `V4` populates an `A`
/// record, `V6` an `AAAA` record.
pub open spec fn spec_derive_content(ip: IpAddress) -> DnsContent {
    match ip {
        IpAddress::V4(a) => DnsContent::A { content: a },
        IpAddress::V6(b) => DnsContent::AAAA { content: b },
    }
}

/// Derives the record content for an observed address, per
/// `spec_derive_content`.
pub fn derive_content(ip: IpAddress) -> (r: DnsContent)
    ensures
        r == spec_derive_content(ip),
{
    match ip {
        IpAddress::V4(a) => DnsContent::A { content: a },
        IpAddress::V6(b) => DnsContent::AAAA { content: b },
    }
}

/// Decides whether two contents belong to the same family, per
/// `spec_same_family`.
pub fn same_family(a: &DnsContent, b: &DnsContent) -> (r: bool)
    ensures
        r == spec_same_family(*a, *b),
{
    match (a, b) {
        (DnsContent::A { .. }, DnsContent::A { .. }) => true,
        (DnsContent::AAAA { .. }, DnsContent::AAAA { .. }) => true,
        (DnsContent::CNAME { .. }, DnsContent::CNAME { .. }) => true,
        (DnsContent::Other, DnsContent::Other) => true,
        _ => false,
    }
}

/// Decides content equality, per `spec_content_equal`.
pub fn compare_dns_content(a: &DnsContent, b: &DnsContent) -> (r: bool)
    ensures
        r == spec_content_equal(*a, *b),
{
    match (a, b) {
        (DnsContent::A { content: x }, DnsContent::A { content: y }) => *x == *y,
        (DnsContent::AAAA { content: x }, DnsContent::AAAA { content: y }) => *x == *y,
        (DnsContent::CNAME { content: x }, DnsContent::CNAME { content: y }) => x.eq(y),
        _ => false,
    }
}

/// Keeps only the records of the family of `new_content` and demands
/// exactly one; on any other count, returns that count.
#[verifier::loop_isolation(false)]
pub fn select_matching(records: Vec<DnsRecord>, new_content: &DnsContent) -> (r: Result<
    DnsRecord,
    usize,
>)
    ensures
        match r {
            Ok(rec) => spec_family_filtered(records@, *new_content).len() == 1 && rec
                == spec_family_filtered(records@, *new_content)[0],
            Err(n) => spec_family_filtered(records@, *new_content).len() != 1 && n
                == spec_family_filtered(records@, *new_content).len(),
        },
{
    let mut recs = records;
    let ghost all = recs@;
    let n: usize = recs.len();
    let mut count: usize = 0;
    let mut first: usize = 0;
    let mut i: usize = 0;
    proof {
        assert(all.take(0) =~= Seq::<DnsRecord>::empty());
    }
    while i < n
        invariant
            i <= n == all.len(),
            recs@ == all,
            count <= i,
            count == spec_family_filtered(all.take(i as int), *new_content).len(),
            count > 0 ==> first < i && all[first as int]
                == spec_family_filtered(all.take(i as int), *new_content)[0],
        decreases n - i,
    {
        let rec = &recs[i];
        let matches_family = same_family(&rec.content, new_content);
        proof {
            assert(all.take(i as int).push(all[i as int]) =~= all.take(i as int + 1));
            lemma_family_filtered_push(all.take(i as int), all[i as int], *new_content);
        }
        if matches_family {
            if count == 0 {
                first = i;
            }
            count = count + 1;
        }
        i = i + 1;
    }
    proof {
        assert(all.take(n as int) =~= all);
    }
    if count != 1 {
        return Err(count);
    }
    let rec = recs.remove(first);
    Ok(rec)
}

/// Plans one reconcile pass from the listed records.
///
/// The plan is a function of the family-filtered records alone:
///
/// - any count of matching records other than one fails with that count,
///   and plans no update;
/// - if the sole matching record already carries `new_content`, nothing
///   is written: the pass is idempotent;
/// - otherwise the update request carries the matched record's own TTL,
///   `proxied` set, the given name, and `new_content`.
pub fn plan_update(records: Vec<DnsRecord>, dns_record_name: &str, new_content: DnsContent) -> (r:
    ReconcileAction)
    ensures
        spec_family_filtered(records@, new_content).len() != 1 ==> (r matches
            ReconcileAction::Fail { matching } && matching == spec_family_filtered(
            records@,
            new_content,
        ).len()),
        (spec_family_filtered(records@, new_content).len() == 1 && spec_content_equal(
            spec_family_filtered(records@, new_content)[0].content,
            new_content,
        )) ==> (r matches ReconcileAction::NoChange { record_id } && record_id@
            == spec_family_filtered(records@, new_content)[0].id@),
        (spec_family_filtered(records@, new_content).len() == 1 && !spec_content_equal(
            spec_family_filtered(records@, new_content)[0].content,
            new_content,
        )) ==> (r matches ReconcileAction::Update { record_id, params } && record_id@
            == spec_family_filtered(records@, new_content)[0].id@ && params.ttl
            == spec_family_filtered(records@, new_content)[0].ttl && params.proxied == true
            && params.name@ == dns_record_name@ && params.content == new_content),
{
    match select_matching(records, &new_content) {
        Err(n) => ReconcileAction::Fail { matching: n },
        Ok(rec) => {
            if compare_dns_content(&rec.content, &new_content) {
                ReconcileAction::NoChange { record_id: rec.id }
            } else {
                ReconcileAction::Update {
                    record_id: rec.id,
                    params: UpdateRequest {
                        ttl: rec.ttl,
                        proxied: true,
                        name: dns_record_name.to_owned(),
                        content: new_content,
                    },
                }
            }
        },
    }
}

/// Sends one update request and hands back the id of the record the
/// provider reports; the outcome is the provider's, and any failure is
/// its failure, surfaced as `ApiError`.
pub fn update_a_record<C: DnsProviderClient>(
    api_client: &C,
    zone_identifier: &str,
    record_id: &str,
    params: &UpdateRequest,
) -> (r: Result<String, CloudflareError>)
    ensures
        r matches Err(e) ==> e matches CloudflareError::ApiError(_),
{
    match api_client.update_record(zone_identifier, record_id, params) {
        Ok(rec) => Ok(rec.id),
        Err(e) => Err(CloudflareError::ApiError(e)),
    }
}

/// One reconcile pass against a provider: list, plan, and write only
/// what the plan asks.  What is decided from the listed records is
/// stated exactly on `plan_update`; what comes back from the provider
/// is the provider's, so of the outcome only the shape of the errors
/// is promised: a provider failure or a filtered count other than one,
/// never a construction failure.
pub fn update_record<C: DnsProviderClient>(
    api_client: &C,
    zone_identifier: &str,
    dns_record_name: &str,
    new_content: DnsContent,
) -> (r: Result<String, CloudflareError>)
    ensures
        r matches Err(e) ==> !(e matches CloudflareError::InvalidHttpClient(_)),
        r matches Err(CloudflareError::AmbiguousOrMissing(n)) ==> n != 1,
{
    let records = match api_client.list_records(zone_identifier, dns_record_name) {
        Ok(rs) => rs,
        Err(e) => {
            return Err(CloudflareError::ApiError(e));
        },
    };
    match plan_update(records, dns_record_name, new_content) {
        ReconcileAction::Fail { matching } => Err(CloudflareError::AmbiguousOrMissing(matching)),
        ReconcileAction::NoChange { record_id } => Ok(record_id),
        ReconcileAction::Update { record_id, params } => update_a_record(
            api_client,
            zone_identifier,
            record_id.as_str(),
            &params,
        ),
    }
}

/// Idempotence: the content derived from an observed address is equal
/// to itself under the reconciler's equality — true only because the
/// derivation never yields `Other` — so when the sole matching record
/// already carries it, the contract of `plan_update` makes the pass
/// plan `NoChange` and write nothing.
pub proof fn lemma_reconcile_idempotent(records: Seq<DnsRecord>, ip: IpAddress)
    requires
        spec_family_filtered(records, spec_derive_content(ip)).len() == 1,
        spec_family_filtered(records, spec_derive_content(ip))[0].content == spec_derive_content(
            ip,
        ),
    ensures
        spec_content_equal(
            spec_family_filtered(records, spec_derive_content(ip))[0].content,
            spec_derive_content(ip),
        ),
{
}

/// Every record the family filter keeps has the desired family, and the
/// filter is idempotent: records of other families are invisible to the
/// reconciler's count and to its update decision.
pub proof fn lemma_family_selection(records: Seq<DnsRecord>, c: DnsContent)
    ensures
        forall|i: int|
            0 <= i < spec_family_filtered(records, c).len() ==> spec_same_family(
                #[trigger] spec_family_filtered(records, c)[i].content,
                c,
            ),
        spec_family_filtered(spec_family_filtered(records, c), c) == spec_family_filtered(
            records,
            c,
        ),
    decreases records.len(),
{
    if records.len() == 0 {
    } else {
        let rest = records.drop_last();
        lemma_family_selection(rest, c);
        let fr = spec_family_filtered(rest, c);
        let f = spec_family_filtered(records, c);
        if spec_same_family(records.last().content, c) {
            assert(f == fr.push(records.last()));
            assert(forall|i: int| 0 <= i < fr.len() ==> f[i] == fr[i]);
            lemma_family_filtered_push(fr, records.last(), c);
        } else {
            assert(f == fr);
        }
    }
}

} // verus!
