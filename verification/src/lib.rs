//! Client-side core for the TubeDB environmental time-series metadata
//! service: typed errors, strict parsers for the two wire formats, the
//! challenge–response logic of the HTTP authentication strategies, and the
//! client configuration that binds a base URL to an authentication mode.
//!
//! The HTTP exchanges themselves are the caller's: this crate decides what
//! each request carries and what every response means.
use vstd::prelude::*;

pub mod auth;
pub mod data;
pub mod digest;
mod error;
pub mod json;
pub mod text;

pub use auth::AuthInfo;
pub use data::Region;
pub use error::Error;
pub use json::{RegionInfo, ViewYearRange};

use crate::json::{parse_info_message, region_info_model};
use crate::text::str_eq;

verus! {

/// Whether a text is a well-formed absolute URL, named but not written
/// out: a function of the input characters alone.
pub uninterp spec fn url_accepted(s: Seq<char>) -> bool;

/// Relies on `url::Url::parse`: whether the text is a well-formed absolute
/// URL; a function of the input characters alone.
#[verifier::external_body]
fn check_base_url(s: &str) -> (r: bool)
    ensures
        r == url_accepted(s@),
{
    match url::Url::parse(s) {
        Ok(_) => true,
        Err(_) => false,
    }
}

/// The response body by which the service signals, in-band, that a region
/// does not exist.
pub open spec fn not_found_sentinel() -> Seq<char> {
    "region not found"@
}

/// The configuration of one client: a validated base URL and the
/// authentication mode, both fixed for the client's lifetime. It holds no
/// per-call state, so one configuration serves any number of concurrent
/// callers.
#[derive(Debug, Clone)]
pub struct TubeDBClient {
    pub base_url: String,
    pub auth_info: AuthInfo,
}

impl TubeDBClient {
    /// Binds a base URL to an authentication mode. The URL must be a
    /// well-formed absolute URL; anything else fails client creation with
    /// `InvalidUrl`.
    pub fn new(base_url: &str, auth_info: AuthInfo) -> (r: Result<TubeDBClient, Error>)
        ensures
            match r {
                Ok(c) => url_accepted(base_url@) && c.base_url@ == base_url@ && c.auth_info
                    == auth_info,
                Err(e) => !url_accepted(base_url@) && e matches Error::InvalidUrl,
            },
    {
        if check_base_url(base_url) {
            Ok(TubeDBClient { base_url: base_url.to_owned(), auth_info })
        } else {
            Err(Error::InvalidUrl)
        }
    }

    /// The relative path of the region-list endpoint.
    pub fn region_list_path() -> (r: &'static str)
        ensures
            r@ == "/tsdb/region_list"@,
    {
        "/tsdb/region_list"
    }

    /// The relative path of the region-detail endpoint; the region
    /// identifier travels as the `region` query parameter.
    pub fn region_json_path() -> (r: &'static str)
        ensures
            r@ == "/tsdb/region.json"@,
    {
        "/tsdb/region.json"
    }

    /// What the body of a region-detail response means, for the region
    /// that was requested: the verbatim sentinel is the typed
    /// unknown-region error carrying that requested identifier — whatever
    /// else the server might have said — and any other body must be a
    /// well-formed region-info document.
    pub fn interpret_region_json(region: &str, body: &str) -> (r: Result<RegionInfo, Error>)
        ensures
            body@ == not_found_sentinel() ==> (r matches Err(e) && (e
                matches Error::InvalidRegion(id) && id@ == region@)),
            body@ != not_found_sentinel() ==> match region_info_model(body@) {
                Some(v) => r matches Ok(info) && info@ == v,
                None => r matches Err(e) && (e matches Error::Parse(m) && m@ == parse_info_message(
                    body@,
                )),
            },
    {
        if str_eq(body, "region not found") {
            Err(Error::InvalidRegion(region.to_owned()))
        } else {
            RegionInfo::parse_document(body)
        }
    }
}

} // verus!
