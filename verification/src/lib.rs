//! Dynamic-DNS updater for a Cloudflare-compatible DNS provider.
//!
//! One reconcile pass observes the host's public IP address, locates the
//! single DNS record of the matching address family under a given name,
//! and issues an update only when the record's content differs from the
//! observed address.

use vstd::prelude::*;

pub mod addr;
pub mod ip;
pub mod record;
pub mod result;
pub mod text;

use crate::addr::spec_parse_ip;
use crate::ip::{get_public_ip, ip_field_of, GetBlocking};
use crate::record::{derive_content, update_record, DnsProviderClient};
use crate::result::{CloudflareError, FetchPublicIPError, UpdateError};

verus! {

/// The facade of the library: composes the public-IP resolver and the
/// record reconciler into one reconcile pass per call.  Constructed once
/// and immutable thereafter.
pub struct Updater {
    pub fetch_public_ip_url: String,
}

impl Updater {
    /// Builds a facade that resolves the public IP from `fetch_url`.
    pub fn new(fetch_url: String) -> (result: Updater)
        ensures
            result.fetch_public_ip_url@ == fetch_url@,
    {
        Updater { fetch_public_ip_url: fetch_url }
    }

    /// One reconcile pass: resolve the public address, derive the
    /// record content of its family, and reconcile the named record.
    ///
    /// The clients carry the HTTP transports, so either half can fail
    /// with its own error; the derivation of the content is stated on
    /// `derive_content`, the reading of the resolver body on
    /// `parse_ip_body`, and the reconcile decision on `plan_update`.
    /// Of the outcome, the resolver-side errors mirror
    /// `get_public_ip`'s contract, and the provider-side errors are a
    /// provider failure or a filtered count other than one, never a
    /// construction failure.
    pub fn update<Client: GetBlocking, Api: DnsProviderClient>(
        &self,
        ip_client: Client,
        api_client: &Api,
        zone_identifier: &str,
        dns_record_name: &str,
    ) -> (r: Result<(), UpdateError>)
        ensures
            r matches Err(UpdateError::Cloudflare(e)) ==> !(e
                matches CloudflareError::InvalidHttpClient(_)),
            r matches Err(UpdateError::Cloudflare(CloudflareError::AmbiguousOrMissing(n))) ==> n
                != 1,
            r matches Err(UpdateError::Fetch(FetchPublicIPError::DeserializeError(_))) ==> (
            exists|b: Seq<char>| (#[trigger] ip_field_of(b)) is None),
            r matches Err(UpdateError::Fetch(FetchPublicIPError::NoIPKey)) ==> (exists|
                b: Seq<char>,
            | (#[trigger] ip_field_of(b)) == Some(None::<Seq<char>>)),
            r matches Err(UpdateError::Fetch(FetchPublicIPError::InvalidIPAddress(txt)))
                ==> spec_parse_ip(txt@) is None && (exists|b: Seq<char>|
                (#[trigger] ip_field_of(b)) == Some(Some(txt@))),
    {
        let current_ip = match get_public_ip(ip_client, self.fetch_public_ip_url.as_str()) {
            Ok(ip) => ip,
            Err(e) => {
                return Err(UpdateError::Fetch(e));
            },
        };
        let record_content = derive_content(current_ip);
        match update_record(api_client, zone_identifier, dns_record_name, record_content) {
            Ok(_record_id) => Ok(()),
            Err(e) => Err(UpdateError::Cloudflare(e)),
        }
    }
}

impl Default for Updater {
    /// Builds a facade that resolves the public IP from a built-in
    /// JSON-returning public-IP service.
    fn default() -> (result: Updater)
        ensures
            result.fetch_public_ip_url@ == "http://ifconfig.co/json"@,
    {
        Updater { fetch_public_ip_url: "http://ifconfig.co/json".to_owned() }
    }
}

} // verus!
