//! Plaintext external-IP endpoints. Each returns a bare address and nothing
//! else.
use vstd::prelude::*;

use super::chain::Chain;
use super::ProviderError;
use crate::addr;
use crate::addr::{parse_chars, IpAddr};
use crate::text;
use crate::text::{chars_of, debug_text, string_of, trim};

verus! {

/// The detail of the error for a body that is not an address.
pub open spec fn not_an_address(body: Seq<char>) -> Seq<char> {
    "invalid IP address syntax: "@ + text::debug_form(text::trimmed(body))
}

/// Reads an answer whose entire body is an IP address. These endpoints append
/// a trailing newline, and some pad with white space. `body` is the text of
/// the answer, or why it could not be read.
pub fn read_plaintext_ip(provider: &'static str, body: Result<String, String>) -> (r: Result<
    IpAddr,
    ProviderError,
>)
    ensures
        match body {
            Err(detail) => r == Err::<IpAddr, ProviderError>(ProviderError::Http(detail)),
            Ok(body) => match addr::address(text::trimmed(body@)) {
                Some(ip) => r == Ok::<IpAddr, ProviderError>(ip),
                None => r matches Err(ProviderError::Parse { provider: p, detail }) && p == provider
                    && detail@ == not_an_address(body@),
            },
        },
{
    let body = match body {
        Ok(body) => body,
        Err(detail) => {
            return Err(ProviderError::Http(detail));
        },
    };
    let chars = chars_of(body.as_str());
    let trimmed = trim(chars.as_slice());
    match parse_chars(trimmed) {
        Some(ip) => Ok(ip),
        None => Err(
            ProviderError::Parse {
                provider,
                detail: "invalid IP address syntax: ".to_string().concat(
                    debug_text(string_of(trimmed).as_str()).as_str(),
                ),
            },
        ),
    }
}

/// `https://api.ipify.org`
#[derive(Debug, PartialEq)]
pub struct Ipify {
    pub url: String,
}

/// `https://icanhazip.com`
#[derive(Debug, PartialEq)]
pub struct IcanHazIp {
    pub url: String,
}

/// `https://checkip.amazonaws.com`
#[derive(Debug, PartialEq)]
pub struct AwsCheckIp {
    pub url: String,
}

impl Default for Ipify {
    fn default() -> (r: Self)
        ensures
            r.url@ == "https://api.ipify.org"@,
    {
        Ipify { url: "https://api.ipify.org".to_string() }
    }
}

impl Default for IcanHazIp {
    fn default() -> (r: Self)
        ensures
            r.url@ == "https://icanhazip.com"@,
    {
        IcanHazIp { url: "https://icanhazip.com".to_string() }
    }
}

impl Default for AwsCheckIp {
    fn default() -> (r: Self)
        ensures
            r.url@ == "https://checkip.amazonaws.com"@,
    {
        AwsCheckIp { url: "https://checkip.amazonaws.com".to_string() }
    }
}

impl Ipify {
    /// Points the provider at another URL.
    pub fn with_url(url: &str) -> (r: Self)
        ensures
            r.url@ == url@,
    {
        Ipify { url: url.to_string() }
    }
}

impl IcanHazIp {
    /// Points the provider at another URL.
    pub fn with_url(url: &str) -> (r: Self)
        ensures
            r.url@ == url@,
    {
        IcanHazIp { url: url.to_string() }
    }
}

impl AwsCheckIp {
    /// Points the provider at another URL.
    pub fn with_url(url: &str) -> (r: Self)
        ensures
            r.url@ == url@,
    {
        AwsCheckIp { url: url.to_string() }
    }
}

/// One of the plaintext endpoints.
#[derive(Debug, PartialEq)]
pub enum IpEndpoint {
    Ipify(Ipify),
    IcanHazIp(IcanHazIp),
    AwsCheckIp(AwsCheckIp),
}

impl IpEndpoint {
    pub open spec fn label(self) -> Seq<char> {
        match self {
            IpEndpoint::Ipify(_) => "ipify"@,
            IpEndpoint::IcanHazIp(_) => "icanhazip"@,
            IpEndpoint::AwsCheckIp(_) => "aws-checkip"@,
        }
    }

    pub open spec fn address(self) -> Seq<char> {
        match self {
            IpEndpoint::Ipify(p) => p.url@,
            IpEndpoint::IcanHazIp(p) => p.url@,
            IpEndpoint::AwsCheckIp(p) => p.url@,
        }
    }

    /// The name under which the endpoint's failures are reported.
    pub fn name(&self) -> (r: &'static str)
        ensures
            r@ == self.label(),
            *self is Ipify ==> r@ == "ipify"@,
            *self is IcanHazIp ==> r@ == "icanhazip"@,
            *self is AwsCheckIp ==> r@ == "aws-checkip"@,
    {
        match self {
            IpEndpoint::Ipify(_) => "ipify",
            IpEndpoint::IcanHazIp(_) => "icanhazip",
            IpEndpoint::AwsCheckIp(_) => "aws-checkip",
        }
    }

    /// The URL to ask.
    pub fn url(&self) -> (r: &str)
        ensures
            r@ == self.address(),
            *self matches IpEndpoint::Ipify(p) ==> r@ == p.url@,
            *self matches IpEndpoint::IcanHazIp(p) ==> r@ == p.url@,
            *self matches IpEndpoint::AwsCheckIp(p) ==> r@ == p.url@,
    {
        match self {
            IpEndpoint::Ipify(p) => p.url.as_str(),
            IpEndpoint::IcanHazIp(p) => p.url.as_str(),
            IpEndpoint::AwsCheckIp(p) => p.url.as_str(),
        }
    }
}

/// The default ordered chain for external-IP lookup.
pub fn default_ip_chain() -> (r: Chain<IpEndpoint>)
    ensures
        r@.len() == 3,
        *r@[0] is Ipify && r@[0].address() == "https://api.ipify.org"@,
        *r@[1] is IcanHazIp && r@[1].address() == "https://icanhazip.com"@,
        *r@[2] is AwsCheckIp && r@[2].address() == "https://checkip.amazonaws.com"@,
{
    let mut providers: Vec<Box<IpEndpoint>> = Vec::new();
    providers.push(Box::new(IpEndpoint::Ipify(Ipify::default())));
    providers.push(Box::new(IpEndpoint::IcanHazIp(IcanHazIp::default())));
    providers.push(Box::new(IpEndpoint::AwsCheckIp(AwsCheckIp::default())));
    Chain::new(providers)
}

} // verus!
