//! Geolocation via ip-api.com.
use vstd::prelude::*;

use super::chain::Chain;
use super::{Degrees, GeoInfo, ProviderError};
use crate::addr;
use crate::addr::{parse, IpAddr};
use crate::text;
use crate::text::{same_text, trim_end_matches};

verus! {

/// What ip-api.com answers. It answers HTTP 200 even for failures and signals
/// the real outcome in `status`, so that field drives error handling.
#[derive(Debug, PartialEq)]
pub struct IpApiResponse {
    pub status: String,
    pub message: Option<String>,
    pub query: Option<String>,
    pub country: Option<String>,
    pub country_code: Option<String>,
    pub region_name: Option<String>,
    pub city: Option<String>,
    pub lat: Option<Degrees>,
    pub lon: Option<Degrees>,
    pub timezone: Option<String>,
    pub isp: Option<String>,
    pub org: Option<String>,
    /// Formatted like "AS15169 Google LLC".
    pub as_field: Option<String>,
}

#[derive(Debug, PartialEq)]
pub struct IpApiCom {
    pub base_url: String,
}

impl Default for IpApiCom {
    fn default() -> (r: Self)
        ensures
            r.base_url@ == "http://ip-api.com/json"@,
    {
        IpApiCom { base_url: "http://ip-api.com/json".to_string() }
    }
}

/// The address an answer is about: the one that was asked for, otherwise the
/// one the endpoint echoed.
pub open spec fn answered_ip(asked: Option<IpAddr>, query: Option<String>) -> Option<IpAddr> {
    match asked {
        Some(ip) => Some(ip),
        None => match query {
            Some(q) => addr::address(q@),
            None => None,
        },
    }
}

/// The facts of a successful answer.
pub open spec fn geo_of(parsed: IpApiResponse, asked: Option<IpAddr>) -> GeoInfo {
    GeoInfo {
        ip: answered_ip(asked, parsed.query),
        country: parsed.country,
        country_code: parsed.country_code,
        region: parsed.region_name,
        city: parsed.city,
        lat: parsed.lat,
        lon: parsed.lon,
        timezone: parsed.timezone,
        isp: parsed.isp,
        org: parsed.org,
        asn: parsed.as_field,
    }
}

impl IpApiCom {
    /// Aims the provider at another base URL.
    pub fn with_base_url(base_url: &str) -> (r: Self)
        ensures
            r.base_url@ == base_url@,
    {
        IpApiCom { base_url: base_url.to_string() }
    }

    /// The name under which the provider's failures are reported.
    pub fn name(&self) -> (r: &'static str)
        ensures
            r@ == "ip-api.com"@,
    {
        "ip-api.com"
    }

    /// The URL that asks about `ip`. The bare base URL asks ip-api to describe
    /// the caller's own address.
    pub fn request_url(&self, ip: Option<IpAddr>) -> (r: String)
        ensures
            r@ == (match ip {
                Some(ip) => text::without_trailing(self.base_url@, '/') + "/"@ + addr::address_text(
                    ip,
                ),
                None => text::without_trailing(self.base_url@, '/'),
            }),
    {
        let base = trim_end_matches(self.base_url.as_str(), '/');
        match ip {
            Some(ip) => base.concat("/").concat(ip.to_text().as_str()),
            None => base,
        }
    }

    /// Reads an answer to the question about `asked`. `body` is the decoded
    /// answer, or why it could not be decoded.
    pub fn read_answer(&self, asked: Option<IpAddr>, body: Result<IpApiResponse, String>) -> (r:
        Result<GeoInfo, ProviderError>)
        ensures
            match body {
                Err(why) => r matches Err(ProviderError::Parse { provider, detail }) && provider@
                    == "ip-api.com"@ && detail == why,
                Ok(parsed) => if parsed.status@ == "success"@ {
                    r == Ok::<GeoInfo, ProviderError>(geo_of(parsed, asked))
                } else {
                    r matches Err(ProviderError::Rejected { provider, message }) && provider@
                        == "ip-api.com"@ && message == (match parsed.message {
                        Some(message) => message,
                        None => parsed.status,
                    })
                },
            },
            body matches Ok(parsed) ==> r matches Ok(geo) ==> {
                &&& geo.country == parsed.country
                &&& geo.country_code == parsed.country_code
                &&& geo.region == parsed.region_name
                &&& geo.city == parsed.city
                &&& geo.lat == parsed.lat
                &&& geo.lon == parsed.lon
                &&& geo.timezone == parsed.timezone
                &&& geo.isp == parsed.isp
                &&& geo.org == parsed.org
                &&& geo.asn == parsed.as_field
                &&& asked is Some ==> geo.ip == asked
                &&& asked is None && parsed.query is None ==> geo.ip is None
                &&& asked is None && parsed.query is Some ==> geo.ip == addr::address(
                    parsed.query->0@,
                )
            },
            r is Ok ==> (body matches Ok(parsed) && parsed.status@ == "success"@),
    {
        let parsed = match body {
            Ok(parsed) => parsed,
            Err(detail) => {
                return Err(ProviderError::Parse { provider: self.name(), detail });
            },
        };
        if !same_text(parsed.status.as_str(), "success") {
            return Err(
                ProviderError::Rejected {
                    provider: self.name(),
                    message: match parsed.message {
                        Some(message) => message,
                        None => parsed.status,
                    },
                },
            );
        }
        let ip = match asked {
            Some(ip) => Some(ip),
            None => match &parsed.query {
                Some(q) => parse(q.as_str()),
                None => None,
            },
        };
        Ok(
            GeoInfo {
                ip,
                country: parsed.country,
                country_code: parsed.country_code,
                region: parsed.region_name,
                city: parsed.city,
                lat: parsed.lat,
                lon: parsed.lon,
                timezone: parsed.timezone,
                isp: parsed.isp,
                org: parsed.org,
                asn: parsed.as_field,
            },
        )
    }
}

/// The default ordered chain for geolocation lookup.
pub fn default_geo_chain() -> (r: Chain<IpApiCom>)
    ensures
        r@.len() == 1,
        r@[0].base_url@ == "http://ip-api.com/json"@,
{
    let mut providers: Vec<Box<IpApiCom>> = Vec::new();
    providers.push(Box::new(IpApiCom::default()));
    Chain::new(providers)
}

/// Every fact of a successful answer lands in its own field, unchanged.
pub proof fn lemma_facts_keep_their_fields(parsed: IpApiResponse, asked: Option<IpAddr>)
    ensures
        geo_of(parsed, asked).country == parsed.country,
        geo_of(parsed, asked).country_code == parsed.country_code,
        geo_of(parsed, asked).region == parsed.region_name,
        geo_of(parsed, asked).city == parsed.city,
        geo_of(parsed, asked).lat == parsed.lat,
        geo_of(parsed, asked).lon == parsed.lon,
        geo_of(parsed, asked).timezone == parsed.timezone,
        geo_of(parsed, asked).isp == parsed.isp,
        geo_of(parsed, asked).org == parsed.org,
        geo_of(parsed, asked).asn == parsed.as_field,
{
}

/// The address that was asked about is the one the facts are about; only
/// without one does the address that the endpoint echoed count.
pub proof fn lemma_asked_address_wins(parsed: IpApiResponse, asked: IpAddr, echoed: IpAddr)
    ensures
        geo_of(parsed, Some(asked)).ip == Some(asked),
        parsed.query matches Some(q) ==> q@ == addr::address_text(echoed) ==> geo_of(
            parsed,
            None,
        ).ip == Some(echoed),
        parsed.query is None ==> geo_of(parsed, None).ip is None,
{
    addr::lemma_address_round_trip(echoed);
}

} // verus!
