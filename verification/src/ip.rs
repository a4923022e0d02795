//! The public-address resolver: reads a JSON body of the shape
//! `{"ip": "<address literal>"}` and parses the literal.
//!
//! The HTTP exchange itself happens behind the `GetBlocking`
//! capability; the reading of the body is exact, stated over
//! `ip_field_of` and `spec_parse_ip`.

use vstd::prelude::*;

use crate::addr::{parse_ip, spec_parse_ip, IpAddress};
use crate::result::FetchPublicIPError;

verus! {

/// The capability of fetching a document over HTTP.  An error carries
/// the transport's own message.
pub trait GetBlocking {
    /// Fetches `url` and returns the response body as text.
    fn get(&self, url: &str) -> Result<String, String>;
}

/// What the JSON step of the resolver yields on a given body text:
/// `None` when the body is not well-formed JSON, `Some(None)` when it
/// is JSON without a string field named `ip`, and `Some(Some(t))` when
/// that field holds the text `t`.
pub uninterp spec fn ip_field_of(body: Seq<char>) -> Option<Option<Seq<char>>>;

/// Relies on serde_json: `from_str` decodes the body into a
/// `serde_json::Value`, failing exactly on malformed JSON, and
/// `Value::get` with `Value::as_str` read the string field `ip`, absent
/// whenever the document is not an object with such a string member.
/// The outcome depends on the body text alone, which `ip_field_of`
/// names; a decode failure carries serde_json's own message.
#[verifier::external_body]
fn read_ip_field(body: &str) -> (r: Result<Option<String>, String>)
    ensures
        match r {
            Ok(Some(t)) => ip_field_of(body@) == Some(Some(t@)),
            Ok(None) => ip_field_of(body@) == Some(None::<Seq<char>>),
            Err(_) => ip_field_of(body@) is None,
        },
{
    let v: serde_json::Value = match serde_json::from_str(body) {
        Ok(v) => v,
        Err(e) => {
            return Err(e.to_string());
        },
    };
    let field = match v.get("ip") {
        Some(x) => match x.as_str() {
            Some(t) => Some(t.to_string()),
            None => None,
        },
        None => None,
    };
    Ok(field)
}

/// Reads an IP address out of a resolver response body: decodes the
/// JSON, extracts the `ip` field, and parses it as an address literal.
/// Each failure names its stage, and an unparsable literal is carried
/// in the error.
pub fn parse_ip_body(body: &str) -> (r: Result<IpAddress, FetchPublicIPError>)
    ensures
        match r {
            Ok(ip) => (ip_field_of(body@) matches Some(f) && f matches Some(t) && spec_parse_ip(t)
                == Some(ip)),
            Err(FetchPublicIPError::DeserializeError(_)) => ip_field_of(body@) is None,
            Err(FetchPublicIPError::NoIPKey) => ip_field_of(body@) == Some(None::<Seq<char>>),
            Err(FetchPublicIPError::InvalidIPAddress(txt)) => (ip_field_of(body@) matches Some(f)
                && f matches Some(t) && t == txt@ && spec_parse_ip(t) is None),
            Err(FetchPublicIPError::RequestError(_)) => false,
        },
{
    match read_ip_field(body) {
        Err(e) => Err(FetchPublicIPError::DeserializeError(e)),
        Ok(None) => Err(FetchPublicIPError::NoIPKey),
        Ok(Some(t)) => {
            match parse_ip(t.as_str()) {
                Some(ip) => Ok(ip),
                None => Err(FetchPublicIPError::InvalidIPAddress(t)),
            }
        },
    }
}

/// Fetches the configured endpoint and reads the address out of its
/// body.  Which body comes back is the client's own and a transport
/// failure surfaces as `RequestError`; every other outcome is
/// `parse_ip_body`'s exact reading of some body text: an address only
/// ever comes from a parsed literal, each decode failure from a body
/// that earns it, and an `InvalidIPAddress` carries a text that indeed
/// parses as no address.
pub fn get_public_ip<Client: GetBlocking>(client: Client, url: &str) -> (r: Result<
    IpAddress,
    FetchPublicIPError,
>)
    ensures
        r matches Ok(ip) ==> (exists|b: Seq<char>|
            (#[trigger] ip_field_of(b)) matches Some(f) && f matches Some(t) && spec_parse_ip(t)
                == Some(ip)),
        r matches Err(FetchPublicIPError::DeserializeError(_)) ==> (exists|b: Seq<char>|
            (#[trigger] ip_field_of(b)) is None),
        r matches Err(FetchPublicIPError::NoIPKey) ==> (exists|b: Seq<char>|
            (#[trigger] ip_field_of(b)) == Some(None::<Seq<char>>)),
        r matches Err(FetchPublicIPError::InvalidIPAddress(txt)) ==> spec_parse_ip(txt@) is None
            && (exists|b: Seq<char>| (#[trigger] ip_field_of(b)) == Some(Some(txt@))),
{
    match client.get(url) {
        Err(e) => Err(FetchPublicIPError::RequestError(e)),
        Ok(body) => parse_ip_body(body.as_str()),
    }
}

} // verus!
