use ipwatch::addr::parse;
use ipwatch::app::{begin_dns_leak_test, run_dns_leak_test};
use ipwatch::dnsleak::bashws::{
    admit_results, collect_entries, generate_session_id, parse_response, read_results,
    session_id_of, BashWs, DEFAULT_PROBE_COUNT, SESSION_ID_LEN,
};
use ipwatch::dnsleak::verdict::as_number;
use ipwatch::dnsleak::{
    evaluate, probe_target, run_test, split_entries, DnsLeakError, Fetched, Resolver,
    ServiceEntry, Verdict,
};
use ipwatch::json::JsonReply;
use ipwatch::poller::Snapshot;
use ipwatch::providers::GeoInfo;

// --- sessions ---

#[test]
fn generated_session_ids_are_twelve_lowercase_hex_chars() {
    for _ in 0..20 {
        let id = generate_session_id();
        assert_eq!(id.len(), SESSION_ID_LEN);
        assert!(
            id.chars().all(|c| c.is_ascii_hexdigit() && !c.is_ascii_uppercase()),
            "expected lowercase hex, got {id:?}"
        );
    }
}

#[test]
fn generated_session_ids_are_not_constant() {
    let a = generate_session_id();
    let b = generate_session_id();
    assert_ne!(a, b, "session ids must be random, not fixed/predictable");
}

#[test]
fn new_session_builds_expected_probe_hostnames() {
    let service = BashWs::default();
    let session = service.new_session();

    assert_eq!(session.hostnames.len(), DEFAULT_PROBE_COUNT as usize);
    for (i, host) in session.hostnames.iter().enumerate() {
        assert_eq!(host, &format!("{}.{}.bash.ws", i + 1, session.id));
    }
}

#[test]
fn results_url_uses_configured_base_and_strips_trailing_slash() {
    let service = BashWs::with_base_url("http://127.0.0.1:9999/");
    assert_eq!(
        service.results_url("abc123"),
        "http://127.0.0.1:9999/dnsleak/test/abc123?json"
    );
}

#[test]
fn a_session_id_is_the_beginning_of_a_uuid() {
    assert_eq!(session_id_of("0123456789abcdef0123456789abcdef"), "0123456789ab");
}

#[test]
fn the_default_service_is_bash_ws() {
    let service = BashWs::default();
    assert_eq!(service.name(), "bash.ws");
    assert_eq!(service.results_url("x"), "https://bash.ws/dnsleak/test/x?json");
    let session = service.session("abc".to_string());
    assert_eq!(session.id, "abc");
    assert_eq!(session.hostnames[0], "1.abc.bash.ws");
    assert_eq!(session.hostnames[7], "8.abc.bash.ws");
    assert_eq!(probe_target("1.abc.bash.ws"), "1.abc.bash.ws:0");
}

// --- response shapes ---

const SAMPLE_SUCCESS_BODY: &str = r#"[
    {"ip":"203.0.113.9","country_name":"","asn":"","type":"ip"},
    {"ip":"1.1.1.1","country_name":"Australia","asn":"AS13335 Cloudflare, Inc.","type":"dns"},
    {"ip":"DNS is not leaking.","country_name":"","asn":"","type":"conclusion"}
]"#;

fn decode(item: &str) -> Result<ServiceEntry, String> {
    let value: serde_json::Value = serde_json::from_str(item).map_err(|e| e.to_string())?;
    let text = |name: &str| value.get(name).and_then(|v| v.as_str()).map(String::from);
    Ok(ServiceEntry {
        ip: text("ip").ok_or("missing field `ip`")?,
        country_name: text("country_name"),
        asn: text("asn"),
        kind: text("type").ok_or("missing field `type`")?,
    })
}

/// What an answer with the given status and body comes to.
fn fetch_results(status: u16, body: &str) -> Result<Vec<ServiceEntry>, DnsLeakError> {
    admit_results(Ok(status))?;
    let items = read_results(Ok(body.as_bytes().to_vec()))?;
    collect_entries(items.iter().map(|item| decode(item)).collect())
}

#[test]
fn fetch_results_parses_valid_array_response_including_conclusion_quirk() {
    let entries =
        fetch_results(200, SAMPLE_SUCCESS_BODY).expect("valid array response should parse");
    assert_eq!(entries.len(), 3, "all three entries, including conclusion, should deserialize");

    let (external_ip, resolvers) = split_entries(entries);
    assert_eq!(external_ip, Some(parse("203.0.113.9").unwrap()));

    // The "DNS is not leaking." conclusion entry must not become a resolver,
    // and must not blow up trying to parse its `ip` field as an address.
    assert_eq!(resolvers.len(), 1, "conclusion entry must not be misparsed as a resolver");
    assert_eq!(resolvers[0].ip, parse("1.1.1.1").unwrap());
    assert_eq!(resolvers[0].country.as_deref(), Some("Australia"));
    assert_eq!(resolvers[0].asn.as_deref(), Some("AS13335 Cloudflare, Inc."));
}

#[test]
fn fetch_results_yields_clean_service_error_for_the_error_object_shape() {
    let err = fetch_results(200, r#"{"error": "No DNS servers found. Try again..."}"#)
        .expect_err("error-object shape must not be parsed as a result array");

    match err {
        DnsLeakError::ServiceError(message) => {
            assert_eq!(message, "No DNS servers found. Try again...");
        }
        other => panic!("expected ServiceError, got {other:?}"),
    }
}

#[test]
fn fetch_results_yields_clean_error_for_unrecognized_object_shape() {
    let err = fetch_results(200, r#"{"unexpected":"shape"}"#)
        .expect_err("object without a recognizable error field must still be a clean error");

    assert!(
        matches!(err, DnsLeakError::ServiceError(_)),
        "expected ServiceError, got {err:?}"
    );
}

#[test]
fn fetch_results_yields_http_error_for_non_success_status() {
    let err = fetch_results(503, "").expect_err("503 should be a clean http error");

    match err {
        DnsLeakError::Http(message) => {
            assert!(message.contains("503"));
            assert_eq!(message, "HTTP 503 Service Unavailable");
        }
        other => panic!("expected Http error, got {other:?}"),
    }
}

#[test]
fn fetch_results_yields_parse_error_for_malformed_json_body() {
    let err = fetch_results(200, "not json at all").expect_err("malformed body should not panic");
    assert!(matches!(err, DnsLeakError::Parse(_)), "expected Parse error, got {err:?}");
    assert_eq!(err, DnsLeakError::Parse("error decoding response body".to_string()));
}

#[test]
fn the_error_member_must_be_a_string() {
    let expected = "service returned an object response with no recognizable error field";
    for body in ["{}", r#"{"error": 5}"#, r#"{"Error": "x"}"#] {
        assert_eq!(
            fetch_results(200, body),
            Err(DnsLeakError::ServiceError(expected.to_string()))
        );
    }
}

#[test]
fn other_json_shapes_are_reported_as_they_came() {
    for (body, shape) in [("42", "42"), (" \"text\" ", "\"text\""), ("null", "null")] {
        assert_eq!(
            fetch_results(200, body),
            Err(DnsLeakError::Parse(format!("unexpected top-level JSON shape: {shape}")))
        );
    }
}

#[test]
fn array_items_come_back_as_json_text() {
    assert_eq!(
        read_results(Ok(b" [ {\"ip\": \"1.1.1.1\"}, 7 ]".to_vec())),
        Ok(vec![r#"{"ip":"1.1.1.1"}"#.to_string(), "7".to_string()])
    );
}

#[test]
fn a_body_that_never_arrived_is_a_parse_error() {
    assert_eq!(
        read_results(Err("request or response body error".to_string())),
        Err(DnsLeakError::Parse("request or response body error".to_string()))
    );
    assert_eq!(
        admit_results(Err("connection refused".to_string())),
        Err(DnsLeakError::Http("connection refused".to_string()))
    );
    assert_eq!(admit_results(Ok(204)), Ok(()));
}

#[test]
fn replies_are_told_apart_by_shape() {
    let items = vec!["1".to_string(), "2".to_string()];
    assert_eq!(parse_response(JsonReply::Array(items.clone())), Ok(items));
    let members = vec![
        ("code".to_string(), None),
        ("error".to_string(), Some("busy".to_string())),
    ];
    assert_eq!(
        parse_response(JsonReply::Object(members)),
        Err(DnsLeakError::ServiceError("busy".to_string()))
    );
    assert_eq!(
        parse_response(JsonReply::Other("true".to_string())),
        Err(DnsLeakError::Parse("unexpected top-level JSON shape: true".to_string()))
    );
}

#[test]
fn the_first_unreadable_entry_fails_the_answer() {
    let good = ServiceEntry {
        ip: "1.1.1.1".to_string(),
        country_name: None,
        asn: None,
        kind: "dns".to_string(),
    };
    let items =
        vec![Ok(good), Err("missing field `ip`".to_string()), Err("later".to_string())];
    assert_eq!(
        collect_entries(items),
        Err(DnsLeakError::Parse("missing field `ip`".to_string()))
    );
    assert_eq!(collect_entries(Vec::new()), Ok(Vec::new()));
}

// --- split_entries ---

#[test]
fn split_entries_empty_input_yields_no_ip_and_no_resolvers() {
    let (ip, resolvers) = split_entries(Vec::new());
    assert_eq!(ip, None);
    assert!(resolvers.is_empty());
}

#[test]
fn split_entries_ignores_unparseable_ip_field_on_ip_entry() {
    let entries = vec![ServiceEntry {
        ip: "not-an-address".to_string(),
        country_name: None,
        asn: None,
        kind: "ip".to_string(),
    }];
    let (ip, resolvers) = split_entries(entries);
    assert_eq!(ip, None, "unparseable ip entry must be dropped, not surfaced as garbage");
    assert!(resolvers.is_empty());
}

#[test]
fn split_entries_ignores_entries_of_unknown_type() {
    let entries = vec![ServiceEntry {
        ip: "1.2.3.4".to_string(),
        country_name: None,
        asn: None,
        kind: "something-new".to_string(),
    }];
    let (ip, resolvers) = split_entries(entries);
    assert_eq!(ip, None);
    assert!(resolvers.is_empty());
}

#[test]
fn the_last_readable_ip_entry_wins() {
    let entry = |ip: &str| ServiceEntry {
        ip: ip.to_string(),
        country_name: None,
        asn: None,
        kind: "ip".to_string(),
    };
    let entries = vec![entry("1.2.3.4"), entry("5.6.7.8"), entry("nowhere")];
    assert_eq!(split_entries(entries).0, parse("5.6.7.8"));
}

// --- run_test ---

fn run(body: &str, expected_asn: Option<&str>) -> Result<ipwatch::dnsleak::LeakReport, DnsLeakError> {
    run_test(Fetched::Answered(fetch_results(200, body)), expected_asn)
}

#[test]
fn run_test_with_empty_resolver_list_reports_no_resolvers_verdict() {
    let report = run("[]", Some("AS7922 Comcast Cable"))
        .expect("empty result set is a valid, successful outcome");

    assert!(report.resolvers.is_empty());
    assert_eq!(report.verdict, Verdict::NoResolvers);
}

#[test]
fn run_test_draws_consistent_verdict_when_resolver_asn_matches_expected() {
    let report = run(
        r#"[{"ip":"10.0.0.1","country_name":"United States","asn":"AS7922 Comcast Cable","type":"dns"}]"#,
        Some("AS7922 Comcast Cable"),
    )
    .expect("should succeed");

    assert_eq!(report.verdict, Verdict::Consistent);
}

#[test]
fn run_test_propagates_service_error_shape_as_err_not_panic() {
    let err = run(r#"{"error": "No DNS servers found. Try again..."}"#, None)
        .expect_err("service error shape must surface as a typed Err, not a panic");
    assert!(matches!(err, DnsLeakError::ServiceError(_)), "expected ServiceError, got {err:?}");
}

#[test]
fn run_test_reports_a_timeout() {
    let err = run_test(Fetched::TimedOut, None).expect_err("a timeout is an error");
    assert_eq!(err, DnsLeakError::Timeout("fetching dnsleak results"));
    assert_eq!(err.message(), "timed out while fetching dnsleak results");
}

#[test]
fn leak_errors_name_their_cause() {
    assert_eq!(DnsLeakError::Http("x".to_string()).message(), "http error: x");
    assert_eq!(
        DnsLeakError::Parse("x".to_string()).message(),
        "could not parse response from the leak-test service: x"
    );
    assert_eq!(
        DnsLeakError::ServiceError("x".to_string()).message(),
        "leak-test service reported an error: x"
    );
}

#[test]
fn a_leak_test_is_refused_while_one_runs() {
    assert_eq!(
        begin_dns_leak_test(true, None),
        Err("a DNS leak test is already running".to_string())
    );
    assert_eq!(begin_dns_leak_test(false, None), Ok(None));
    let snapshot = Snapshot {
        ip: parse("203.0.113.7").unwrap(),
        geo: GeoInfo { asn: Some("AS7922 Comcast".to_string()), ..Default::default() },
        observed_at: 0,
    };
    assert_eq!(
        begin_dns_leak_test(false, Some(&snapshot)),
        Ok(Some("AS7922 Comcast".to_string()))
    );
}

#[test]
fn the_command_answers_with_a_report_or_a_message() {
    let report = run_dns_leak_test(Fetched::Answered(Ok(Vec::new())), None).unwrap();
    assert_eq!(report.verdict, Verdict::NoResolvers);
    assert_eq!(
        run_dns_leak_test(Fetched::TimedOut, None).unwrap_err(),
        "timed out while fetching dnsleak results"
    );
    assert_eq!(
        run_dns_leak_test(Fetched::Answered(Err(DnsLeakError::Http("down".to_string()))), None)
            .unwrap_err(),
        "http error: down"
    );
}

#[test]
fn a_report_and_a_session_can_be_copied() {
    let report = run(
        r#"[{"ip":"8.8.8.8","asn":"AS15169 Google LLC","type":"dns"}]"#,
        Some("AS7922 Comcast Cable"),
    )
    .unwrap();
    assert_eq!(report.clone(), report);
    assert_eq!(report.verdict, Verdict::Leaking { foreign: vec![parse("8.8.8.8").unwrap()] });
    let session = BashWs::default().session("abc".to_string());
    assert_eq!(session.clone(), session);
}

// --- as_number ---

fn resolver(ip: &str, asn: Option<&str>) -> Resolver {
    Resolver {
        ip: parse(ip).unwrap(),
        country: None,
        asn: asn.map(String::from),
    }
}

#[test]
fn as_number_extracts_leading_token_and_normalizes_case() {
    assert_eq!(as_number("AS15169 Google LLC"), Some("AS15169".to_string()));
    assert_eq!(as_number("as15169"), Some("AS15169".to_string()));
    assert_eq!(as_number("  AS701  "), Some("AS701".to_string()));
}

#[test]
fn as_number_rejects_unrecognized_formats() {
    assert_eq!(as_number(""), None);
    assert_eq!(as_number("Google LLC"), None);
    assert_eq!(as_number("AS"), None);
    assert_eq!(as_number("A15169"), None);
    assert_eq!(as_number("15169"), None);
}

#[test]
fn as_number_stops_at_the_first_other_character() {
    assert_eq!(as_number("aS12x34"), Some("AS12".to_string()));
    assert_eq!(as_number("AS 12"), None);
}

// --- evaluate ---

#[test]
fn empty_resolvers_is_no_resolvers_regardless_of_expected_asn() {
    assert_eq!(evaluate(Some("AS15169"), &[]), Verdict::NoResolvers);
    assert_eq!(evaluate(None, &[]), Verdict::NoResolvers);
}

#[test]
fn no_expected_asn_is_inconclusive_even_with_resolvers_present() {
    let resolvers = vec![resolver("1.1.1.1", Some("AS13335 Cloudflare"))];
    assert_eq!(
        evaluate(None, &resolvers),
        Verdict::Inconclusive {
            reason: "no known ASN for the current external IP to compare against".to_string()
        }
    );
}

#[test]
fn unparseable_expected_asn_is_inconclusive() {
    let resolvers = vec![resolver("1.1.1.1", Some("AS13335 Cloudflare"))];
    assert_eq!(
        evaluate(Some("not-an-asn"), &resolvers),
        Verdict::Inconclusive {
            reason: "no known ASN for the current external IP to compare against".to_string()
        }
    );
}

#[test]
fn same_asn_is_consistent() {
    let resolvers = vec![
        resolver("1.1.1.1", Some("AS13335 Cloudflare")),
        resolver("1.0.0.1", Some("as13335")),
    ];
    assert_eq!(
        evaluate(Some("AS13335 Cloudflare, Inc."), &resolvers),
        Verdict::Consistent
    );
}

#[test]
fn clearly_different_asn_is_leaking() {
    let resolvers = vec![resolver("8.8.8.8", Some("AS15169 Google LLC"))];
    assert_eq!(
        evaluate(Some("AS7922 Comcast Cable"), &resolvers),
        Verdict::Leaking { foreign: vec![parse("8.8.8.8").unwrap()] }
    );
}

#[test]
fn one_foreign_resolver_among_matching_ones_is_still_leaking() {
    let resolvers = vec![
        resolver("1.1.1.1", Some("AS7922 Comcast Cable")),
        resolver("8.8.8.8", Some("AS15169 Google LLC")),
    ];
    assert_eq!(
        evaluate(Some("AS7922 Comcast Cable"), &resolvers),
        Verdict::Leaking { foreign: vec![parse("8.8.8.8").unwrap()] }
    );
}

#[test]
fn resolvers_with_unparseable_asn_are_skipped_not_treated_as_matches() {
    let resolvers = vec![resolver("9.9.9.9", Some("Unknown"))];
    assert_eq!(
        evaluate(Some("AS7922 Comcast Cable"), &resolvers),
        Verdict::Inconclusive { reason: "no resolver reported a parseable ASN".to_string() }
    );
}

#[test]
fn resolvers_with_missing_asn_are_skipped_not_treated_as_matches() {
    let resolvers = vec![resolver("9.9.9.9", None)];
    assert_eq!(
        evaluate(Some("AS7922 Comcast Cable"), &resolvers),
        Verdict::Inconclusive { reason: "no resolver reported a parseable ASN".to_string() }
    );
}

#[test]
fn mixed_comparable_and_incomparable_resolvers_still_judges_on_the_comparable_ones() {
    let resolvers = vec![
        resolver("9.9.9.9", None),
        resolver("8.8.8.8", Some("AS15169 Google LLC")),
    ];
    assert_eq!(
        evaluate(Some("AS7922 Comcast Cable"), &resolvers),
        Verdict::Leaking { foreign: vec![parse("8.8.8.8").unwrap()] }
    );
}

#[test]
fn a_further_resolver_never_clears_a_leak() {
    let leaking = vec![resolver("8.8.8.8", Some("AS15169 Google LLC"))];
    for extra in [
        resolver("1.1.1.1", Some("AS7922 Comcast Cable")),
        resolver("9.9.9.9", None),
    ] {
        for at in 0..2 {
            let mut more = leaking.clone();
            more.insert(at, extra.clone());
            assert_eq!(
                evaluate(Some("AS7922 Comcast Cable"), &more),
                Verdict::Leaking { foreign: vec![parse("8.8.8.8").unwrap()] }
            );
        }
    }
}
