//! External IP and geolocation lookup with an ordered failover chain.
//!
//! Each concern has a list of providers that are tried in order, and the
//! first success wins.
use vstd::prelude::*;

use crate::addr::IpAddr;
use crate::http::{is_success, status_message};
use crate::text;
use crate::text::debug_text;

pub mod chain;
pub mod geo;
pub mod ip;

pub use chain::{all_failed, Chain, Failover, FailoverStep};
pub use geo::{default_geo_chain, IpApiCom, IpApiResponse};
pub use ip::{default_ip_chain, AwsCheckIp, IcanHazIp, IpEndpoint, Ipify};

verus! {

/// Per-request ceiling so one hung endpoint cannot stall the whole chain.
pub const REQUEST_TIMEOUT_SECS: u64 = 5;

/// A coordinate in degrees, as the bits of an IEEE 754 double. It is carried
/// through for display and never computed with, but it compares as the double
/// does.
#[derive(Clone, Copy, Debug)]
pub struct Degrees {
    pub bits: u64,
}

impl Degrees {
    /// The bits without the sign.
    pub open spec fn magnitude(self) -> int {
        if self.bits < 0x8000_0000_0000_0000 {
            self.bits as int
        } else {
            self.bits - 0x8000_0000_0000_0000
        }
    }

    /// Whether the bits stand for a number: all the exponent's bits set, with
    /// anything behind them, stand for none.
    pub open spec fn is_number(self) -> bool {
        self.magnitude() <= 0x7ff0_0000_0000_0000
    }

    /// Whether two doubles are equal: what is no number equals nothing, and
    /// the two zeros equal one another.
    pub open spec fn equals(self, other: Degrees) -> bool {
        self.is_number() && other.is_number() && (self.bits == other.bits || (self.magnitude() == 0
            && other.magnitude() == 0))
    }

    fn unsigned(&self) -> (r: u64)
        ensures
            r == self.magnitude(),
    {
        if self.bits < 0x8000_0000_0000_0000 {
            self.bits
        } else {
            self.bits - 0x8000_0000_0000_0000
        }
    }
}

impl PartialEq for Degrees {
    fn eq(&self, other: &Self) -> (r: bool) {
        let a: u64 = self.unsigned();
        let b: u64 = other.unsigned();
        a <= 0x7ff0_0000_0000_0000 && b <= 0x7ff0_0000_0000_0000 && (self.bits == other.bits || (a
            == 0 && b == 0))
    }
}

impl vstd::std_specs::cmp::PartialEqSpecImpl for Degrees {
    open spec fn obeys_eq_spec() -> bool {
        true
    }

    open spec fn eq_spec(&self, other: &Self) -> bool {
        self.equals(*other)
    }
}

/// Geolocation and network-ownership facts about an external address.
///
/// Every field is optional: the free tiers of these APIs omit fields
/// unpredictably, and a partial answer is still useful for VPN checks.
#[derive(Debug, PartialEq)]
pub struct GeoInfo {
    pub ip: Option<IpAddr>,
    pub country: Option<String>,
    pub country_code: Option<String>,
    pub region: Option<String>,
    pub city: Option<String>,
    pub lat: Option<Degrees>,
    pub lon: Option<Degrees>,
    pub timezone: Option<String>,
    pub isp: Option<String>,
    pub org: Option<String>,
    pub asn: Option<String>,
}

impl GeoInfo {
    /// The info in which nothing is known.
    pub open spec fn unknown() -> GeoInfo {
        GeoInfo {
            ip: None,
            country: None,
            country_code: None,
            region: None,
            city: None,
            lat: None,
            lon: None,
            timezone: None,
            isp: None,
            org: None,
            asn: None,
        }
    }
}

impl Default for GeoInfo {
    fn default() -> (r: Self)
        ensures
            r == GeoInfo::unknown(),
            r.ip is None && r.country is None && r.country_code is None && r.region is None,
            r.city is None && r.lat is None && r.lon is None && r.timezone is None,
            r.isp is None && r.org is None && r.asn is None,
    {
        GeoInfo {
            ip: None,
            country: None,
            country_code: None,
            region: None,
            city: None,
            lat: None,
            lon: None,
            timezone: None,
            isp: None,
            org: None,
            asn: None,
        }
    }
}

impl Clone for GeoInfo {
    fn clone(&self) -> (r: Self)
        ensures
            r == *self,
    {
        GeoInfo {
            ip: self.ip,
            country: self.country.clone(),
            country_code: self.country_code.clone(),
            region: self.region.clone(),
            city: self.city.clone(),
            lat: self.lat,
            lon: self.lon,
            timezone: self.timezone.clone(),
            isp: self.isp.clone(),
            org: self.org.clone(),
            asn: self.asn.clone(),
        }
    }
}

/// Why a lookup failed.
#[derive(Debug, PartialEq)]
pub enum ProviderError {
    /// The request could not be sent, or its answer not be read.
    Http(String),
    /// The endpoint answered with something that is not what it promises.
    Parse { provider: &'static str, detail: String },
    /// The endpoint answered, but told us it would not serve the request
    /// (rate limit, `status: "fail"`, etc.). Distinct from a transport error.
    Rejected { provider: &'static str, message: String },
    /// Every provider of a chain failed; one named message each.
    AllFailed(Vec<String>),
}

/// A list of texts as `Debug` renders it: `["a", "b"]`.
pub open spec fn debug_list(list: Seq<Seq<char>>) -> Seq<char> {
    "["@ + text::join(Seq::new(list.len(), |i: int| text::debug_form(list[i])), ", "@) + "]"@
}

pub open spec fn provider_error_text(err: ProviderError) -> Seq<char> {
    match err {
        ProviderError::Http(detail) => "http error: "@ + detail@,
        ProviderError::Parse { provider, detail } => "could not parse response from "@ + provider@
            + ": "@ + detail@,
        ProviderError::Rejected { provider, message } => provider@ + " rejected the request: "@
            + message@,
        ProviderError::AllFailed(list) => "all providers failed: "@ + debug_list(text::texts(list@)),
    }
}

fn debug_list_text(list: &Vec<String>) -> (r: String)
    ensures
        r@ == debug_list(text::texts(list@)),
{
    let mut r = "[".to_string();
    let ghost forms = Seq::new(
        list@.len(),
        |i: int| text::debug_form(text::texts(list@)[i]),
    );
    assert(forms.take(0) =~= seq![]);
    for i in 0..list.len()
        invariant
            forms == Seq::new(list@.len(), |i: int| text::debug_form(text::texts(list@)[i])),
            r@ == "["@ + text::join(forms.take(i as int), ", "@),
    {
        let ghost before = r@;
        if i > 0 {
            r.append(", ");
        }
        r.append(debug_text(list[i].as_str()).as_str());
        proof {
            assert(forms[i as int] == text::debug_form(list@[i as int]@));
            let next = forms.take(i + 1);
            assert(next.drop_last() == forms.take(i as int));
            assert(next.last() == forms[i as int]);
            if i > 0 {
                assert(text::join(next, ", "@) == text::join(forms.take(i as int), ", "@) + ", "@
                    + forms[i as int]);
            } else {
                assert(text::join(next, ", "@) == forms[0]);
                assert(text::join(forms.take(0), ", "@) =~= seq![]);
            }
            assert(r@ == "["@ + text::join(next, ", "@));
        }
    }
    assert(forms.take(list@.len() as int) == forms);
    r.append("]");
    r
}

impl ProviderError {
    /// The message shown for this error.
    pub fn message(&self) -> (r: String)
        ensures
            r@ == provider_error_text(*self),
            *self matches ProviderError::Http(detail) ==> r@ == "http error: "@ + detail@,
            *self matches ProviderError::Parse { provider, detail } ==> r@
                == "could not parse response from "@ + provider@ + ": "@ + detail@,
            *self matches ProviderError::Rejected { provider, message } ==> r@ == provider@
                + " rejected the request: "@ + message@,
    {
        match self {
            ProviderError::Http(detail) => "http error: ".to_string().concat(detail.as_str()),
            ProviderError::Parse { provider, detail } => "could not parse response from ".to_string().concat(
                provider,
            ).concat(": ").concat(detail.as_str()),
            ProviderError::Rejected { provider, message } => (*provider).to_string().concat(
                " rejected the request: ",
            ).concat(message.as_str()),
            ProviderError::AllFailed(list) => "all providers failed: ".to_string().concat(
                debug_list_text(list).as_str(),
            ),
        }
    }
}

/// Decides whether the body of an answer is worth reading. `sent` is the
/// status of the answer, or why there is none.
pub fn admit_response(provider: &'static str, sent: Result<u16, String>) -> (r: Result<
    (),
    ProviderError,
>)
    ensures
        match sent {
            Err(detail) => r == Err::<(), ProviderError>(ProviderError::Http(detail)),
            Ok(status) => if crate::http::success(status) {
                r is Ok
            } else {
                r matches Err(ProviderError::Rejected { provider: p, message }) && p == provider
                    && message@ == "HTTP "@ + crate::http::status_text(status)
            },
        },
        sent matches Ok(status) ==> (r is Ok <==> 200 <= status <= 299),
{
    match sent {
        Err(detail) => Err(ProviderError::Http(detail)),
        Ok(status) => if is_success(status) {
            Ok(())
        } else {
            Err(ProviderError::Rejected { provider, message: status_message(status) })
        },
    }
}

/// Coordinates compare as doubles do: a bit pattern is no number exactly if
/// its exponent is all ones and its fraction is not zero, and then equals
/// nothing, not even itself; the two zeros are equal; any other two numbers
/// are equal exactly if their bits are.
pub proof fn lemma_degrees_compare_as_doubles(a: Degrees, b: Degrees)
    ensures
        ({
            let nan_a = (a.bits / 0x10_0000_0000_0000) % 0x800 == 0x7ff && a.bits
                % 0x10_0000_0000_0000 != 0;
            let nan_b = (b.bits / 0x10_0000_0000_0000) % 0x800 == 0x7ff && b.bits
                % 0x10_0000_0000_0000 != 0;
            let zero_a = a.bits == 0 || a.bits == 0x8000_0000_0000_0000;
            let zero_b = b.bits == 0 || b.bits == 0x8000_0000_0000_0000;
            a.equals(b) <==> !nan_a && !nan_b && (a.bits == b.bits || (zero_a && zero_b))
        }),
        a.equals(b) == b.equals(a),
{
}

/// A list of failures shows every one of them, in order, between brackets.
pub proof fn lemma_failures_are_all_shown(list: Seq<Seq<char>>, last: Seq<char>)
    requires
        list.len() > 0,
    ensures
        debug_list(list.push(last)) == debug_list(list).drop_last() + ", "@ + text::debug_form(last)
            + "]"@,
        debug_list(seq![last]) == "["@ + text::debug_form(last) + "]"@,
{
    reveal_strlit("]");
    let forms = Seq::new(list.len(), |i: int| text::debug_form(list[i]));
    let more = Seq::new(list.push(last).len(), |i: int| text::debug_form(list.push(last)[i]));
    assert(more.drop_last() =~= forms);
    assert(more.last() == text::debug_form(last));
    assert(debug_list(list).drop_last() =~= "["@ + text::join(forms, ", "@));
    assert(debug_list(list.push(last)) =~= debug_list(list).drop_last() + ", "@ + text::debug_form(
        last,
    ) + "]"@);
    let one = Seq::new(seq![last].len(), |i: int| text::debug_form(seq![last][i]));
    assert(one =~= seq![text::debug_form(last)]);
}

} // verus!
