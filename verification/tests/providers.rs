use ipwatch::addr::{parse, IpAddr};
use ipwatch::providers::ip::read_plaintext_ip;
use ipwatch::providers::{
    admit_response, all_failed, default_geo_chain, default_ip_chain,
    AwsCheckIp, Chain, Degrees, FailoverStep, GeoInfo, IcanHazIp, IpApiCom, IpApiResponse,
    IpEndpoint, Ipify, ProviderError,
};

/// Asks one plaintext endpoint that answers with `status` and `body`.
fn ask(endpoint: &IpEndpoint, status: u16, body: &str) -> Result<IpAddr, ProviderError> {
    admit_response(endpoint.name(), Ok(status))?;
    read_plaintext_ip(endpoint.name(), Ok(body.to_string()))
}

/// Runs a lookup over `chain`, whose endpoints answer as told. Also counts how
/// many of them were asked.
fn fetch_ip(
    chain: &Chain<IpEndpoint>,
    answers: &[(u16, &str)],
) -> (Result<IpAddr, ProviderError>, usize) {
    let mut asked = 0;
    let mut step = chain.begin();
    loop {
        match step {
            FailoverStep::Done(result) => return (result, asked),
            FailoverStep::Ask { position, lookup } => {
                asked += 1;
                let endpoint = &chain.providers()[position];
                let (status, body) = answers[position];
                step = lookup.step(endpoint.name(), ask(endpoint, status, body));
            }
        }
    }
}

fn two_providers() -> Chain<IpEndpoint> {
    Chain::new(vec![
        Box::new(IpEndpoint::Ipify(Ipify::with_url("http://primary.test"))),
        Box::new(IpEndpoint::IcanHazIp(IcanHazIp::with_url("http://secondary.test"))),
    ])
}

// --- chain failover ---

#[test]
fn chain_falls_back_to_secondary_when_primary_returns_server_error() {
    let (result, asked) = fetch_ip(&two_providers(), &[(500, ""), (200, "203.0.113.5")]);
    let ip = result.expect("secondary should succeed");
    assert_eq!(ip, parse("203.0.113.5").unwrap());
    assert_eq!(asked, 2);
}

#[test]
fn chain_reports_all_failed_with_one_named_error_per_provider() {
    let (result, _) = fetch_ip(&two_providers(), &[(500, ""), (503, "")]);
    let err = result.expect_err("both providers fail");
    match err {
        ProviderError::AllFailed(errors) => {
            assert_eq!(errors.len(), 2, "one entry per provider: {errors:?}");
            assert!(
                errors.iter().any(|e| e.contains("ipify")),
                "missing ipify entry: {errors:?}"
            );
            assert!(
                errors.iter().any(|e| e.contains("icanhazip")),
                "missing icanhazip entry: {errors:?}"
            );
            assert_eq!(
                errors,
                vec![
                    "ipify: ipify rejected the request: HTTP 500 Internal Server Error",
                    "icanhazip: icanhazip rejected the request: HTTP 503 Service Unavailable",
                ]
            );
        }
        other => panic!("expected AllFailed, got {other:?}"),
    }
}

#[test]
fn chain_treats_unparseable_success_body_as_parse_error_and_continues() {
    let (result, _) =
        fetch_ip(&two_providers(), &[(200, "<html>not an ip</html>"), (200, "203.0.113.9")]);
    assert_eq!(result.expect("secondary should succeed"), parse("203.0.113.9").unwrap());
}

#[test]
fn chain_never_calls_later_providers_once_the_first_succeeds() {
    let (result, asked) =
        fetch_ip(&two_providers(), &[(200, "203.0.113.1"), (200, "203.0.113.2")]);
    assert_eq!(result.expect("primary should succeed"), parse("203.0.113.1").unwrap());
    assert_eq!(asked, 1);
}

#[test]
fn an_empty_chain_fails_without_asking() {
    let chain: Chain<IpEndpoint> = Chain::new(Vec::new());
    assert!(chain.is_empty());
    assert_eq!(chain.len(), 0);
    let (result, asked) = fetch_ip(&chain, &[]);
    assert_eq!(result, Err(ProviderError::AllFailed(Vec::new())));
    assert_eq!(asked, 0);
}

#[test]
fn the_aggregate_error_quotes_every_failure() {
    let err = all_failed(vec![
        ("one", ProviderError::Http("a \"b\"".to_string())),
        ("two", ProviderError::Rejected { provider: "two", message: "no".to_string() }),
    ]);
    assert_eq!(
        err.message(),
        "all providers failed: [\"one: http error: a \\\"b\\\"\", \"two: two rejected the request: no\"]"
    );
    assert_eq!(all_failed(Vec::new()).message(), "all providers failed: []");
}

#[test]
fn default_chains_hold_the_known_endpoints_in_order() {
    let chain = default_ip_chain();
    let named: Vec<(&str, &str)> =
        chain.providers().iter().map(|p| (p.name(), p.url())).collect();
    assert_eq!(
        named,
        vec![
            ("ipify", "https://api.ipify.org"),
            ("icanhazip", "https://icanhazip.com"),
            ("aws-checkip", "https://checkip.amazonaws.com"),
        ]
    );
    assert_eq!(AwsCheckIp::with_url("http://x").url, "http://x");

    let geo = default_geo_chain();
    assert_eq!(geo.len(), 1);
    assert_eq!(geo.providers()[0].base_url, "http://ip-api.com/json");
}

// --- plaintext endpoints ---

fn ipify() -> IpEndpoint {
    IpEndpoint::Ipify(Ipify::default())
}

#[test]
fn plaintext_body_with_trailing_newline_parses() {
    let ip = ask(&ipify(), 200, "203.0.113.7\n").expect("should parse");
    assert_eq!(ip, parse("203.0.113.7").unwrap());
}

#[test]
fn plaintext_body_with_surrounding_whitespace_parses() {
    let ip = ask(&ipify(), 200, "  203.0.113.7  \n").expect("should parse");
    assert_eq!(ip, parse("203.0.113.7").unwrap());
}

#[test]
fn plaintext_garbage_body_yields_parse_error() {
    let err = ask(&ipify(), 200, "this is not an ip address")
        .expect_err("garbage body should fail to parse");
    match err {
        ProviderError::Parse { provider, .. } => assert_eq!(provider, "ipify"),
        other => panic!("expected Parse error, got {other:?}"),
    }
}

#[test]
fn plaintext_ipv6_body_parses() {
    let ip = ask(&ipify(), 200, "2001:db8::1").expect("should parse ipv6");
    assert_eq!(ip, parse("2001:db8::1").unwrap());
}

#[test]
fn a_garbage_body_is_quoted_in_the_error() {
    let err = ask(&ipify(), 200, " no\tip\u{1b} \n").unwrap_err();
    assert_eq!(
        err.message(),
        "could not parse response from ipify: invalid IP address syntax: \"no\\tip\\u{1b}\""
    );
}

#[test]
fn transport_failures_are_http_errors() {
    let err = admit_response("ipify", Err("connection refused".to_string())).unwrap_err();
    assert_eq!(err.message(), "http error: connection refused");
    let err = read_plaintext_ip("ipify", Err("reset".to_string())).unwrap_err();
    assert_eq!(err, ProviderError::Http("reset".to_string()));
}

#[test]
fn a_failing_status_is_named_with_its_phrase() {
    for (status, phrase) in [
        (199u16, "HTTP 199 <unknown status code>"),
        (300, "HTTP 300 Multiple Choices"),
        (404, "HTTP 404 Not Found"),
        (429, "HTTP 429 Too Many Requests"),
    ] {
        assert_eq!(
            admit_response("p", Ok(status)),
            Err(ProviderError::Rejected { provider: "p", message: phrase.to_string() })
        );
    }
    assert_eq!(admit_response("p", Ok(200)), Ok(()));
    assert_eq!(admit_response("p", Ok(299)), Ok(()));
}

// --- ip-api.com ---

fn degrees(value: f64) -> Degrees {
    Degrees { bits: value.to_bits() }
}

fn success_payload() -> IpApiResponse {
    IpApiResponse {
        status: "success".to_string(),
        message: None,
        query: Some("142.250.72.14".to_string()),
        country: Some("United States".to_string()),
        country_code: Some("US".to_string()),
        region_name: Some("California".to_string()),
        city: Some("Mountain View".to_string()),
        lat: Some(degrees(37.4056)),
        lon: Some(degrees(-122.0775)),
        timezone: Some("America/Los_Angeles".to_string()),
        isp: Some("Google LLC".to_string()),
        org: Some("Google LLC".to_string()),
        as_field: Some("AS15169 Google LLC".to_string()),
    }
}

fn fetch_geo(
    provider: &IpApiCom,
    asked: Option<IpAddr>,
    status: u16,
    body: Result<IpApiResponse, String>,
) -> Result<GeoInfo, ProviderError> {
    admit_response(provider.name(), Ok(status))?;
    provider.read_answer(asked, body)
}

fn failure_payload(message: Option<&str>) -> IpApiResponse {
    IpApiResponse {
        status: "fail".to_string(),
        message: message.map(String::from),
        query: None,
        country: None,
        country_code: None,
        region_name: None,
        city: None,
        lat: None,
        lon: None,
        timezone: None,
        isp: None,
        org: None,
        as_field: None,
    }
}

#[test]
fn geo_success_payload_maps_onto_geo_info_including_renamed_fields() {
    let provider = IpApiCom::with_base_url("http://geo.test");
    let geo = fetch_geo(&provider, None, 200, Ok(success_payload()))
        .expect("should parse success payload");

    assert_eq!(geo.country_code.as_deref(), Some("US"), "countryCode -> country_code");
    assert_eq!(geo.region.as_deref(), Some("California"), "regionName -> region");
    assert_eq!(geo.asn.as_deref(), Some("AS15169 Google LLC"), "as -> asn");
    assert_eq!(geo.country.as_deref(), Some("United States"));
    assert_eq!(geo.city.as_deref(), Some("Mountain View"));
    assert_eq!(geo.isp.as_deref(), Some("Google LLC"));
    assert_eq!(geo.org.as_deref(), Some("Google LLC"));
    assert_eq!(geo.timezone.as_deref(), Some("America/Los_Angeles"));
    assert_eq!(geo.lat.map(|d| f64::from_bits(d.bits)), Some(37.4056));
    assert_eq!(geo.lon.map(|d| f64::from_bits(d.bits)), Some(-122.0775));
    assert_eq!(geo.ip, Some(parse("142.250.72.14").unwrap()));
}

#[test]
fn geo_status_fail_in_http_200_body_yields_rejected_with_message() {
    let provider = IpApiCom::with_base_url("http://geo.test");
    let err = fetch_geo(&provider, None, 200, Ok(failure_payload(Some("reserved range"))))
        .expect_err("status: fail should error");
    match err {
        ProviderError::Rejected { message, .. } => {
            assert_eq!(message, "reserved range");
        }
        other => panic!("expected Rejected, got {other:?}"),
    }
}

#[test]
fn geo_http_429_yields_rejected_error() {
    let provider = IpApiCom::with_base_url("http://geo.test");
    let err = fetch_geo(&provider, None, 429, Ok(success_payload()))
        .expect_err("429 should be rejected");
    match err {
        ProviderError::Rejected { provider, .. } => assert_eq!(provider, "ip-api.com"),
        other => panic!("expected Rejected, got {other:?}"),
    }
}

#[test]
fn geo_request_path_includes_ip_when_a_specific_ip_is_requested() {
    let provider = IpApiCom::with_base_url("http://geo.test/json");
    let requested_ip = parse("203.0.113.9").unwrap();
    assert_eq!(
        provider.request_url(Some(requested_ip)),
        "http://geo.test/json/203.0.113.9"
    );
    let geo = fetch_geo(&provider, Some(requested_ip), 200, Ok(success_payload()))
        .expect("should parse");
    assert_eq!(geo.ip, Some(requested_ip));
}

#[test]
fn geo_request_path_omits_ip_when_no_specific_ip_is_requested() {
    let provider = IpApiCom::with_base_url("http://geo.test/json");
    assert_eq!(provider.request_url(None), "http://geo.test/json");
    let slashed = IpApiCom::with_base_url("http://geo.test/json//");
    assert_eq!(slashed.request_url(None), "http://geo.test/json");
    assert_eq!(IpApiCom::default().request_url(None), "http://ip-api.com/json");
}

#[test]
fn a_refusal_without_a_message_is_named_by_its_status() {
    let provider = IpApiCom::default();
    let err = fetch_geo(&provider, None, 200, Ok(failure_payload(None))).unwrap_err();
    assert_eq!(err.message(), "ip-api.com rejected the request: fail");
}

#[test]
fn an_undecodable_answer_is_a_parse_error() {
    let provider = IpApiCom::default();
    let err =
        fetch_geo(&provider, None, 200, Err("error decoding response body".to_string()))
            .unwrap_err();
    assert_eq!(
        err.message(),
        "could not parse response from ip-api.com: error decoding response body"
    );
}

#[test]
fn an_echoed_query_that_is_no_address_leaves_it_unknown() {
    let provider = IpApiCom::default();
    let mut payload = success_payload();
    payload.query = Some("localhost".to_string());
    assert_eq!(fetch_geo(&provider, None, 200, Ok(payload)).unwrap().ip, None);
}

#[test]
fn coordinates_compare_as_doubles() {
    assert_eq!(degrees(0.0), degrees(-0.0));
    assert_eq!(degrees(37.4056), degrees(37.4056));
    assert_eq!(degrees(f64::INFINITY), degrees(f64::INFINITY));
    assert_ne!(degrees(1.5), degrees(-1.5));
    assert_ne!(degrees(f64::INFINITY), degrees(f64::NEG_INFINITY));
    assert_ne!(degrees(f64::NAN), degrees(f64::NAN));
    assert_ne!(degrees(-f64::NAN), degrees(-f64::NAN));
    let at = |lat: f64| GeoInfo { lat: Some(degrees(lat)), ..Default::default() };
    assert_eq!(at(0.0), at(-0.0));
    assert_ne!(at(f64::NAN), at(f64::NAN));
}
